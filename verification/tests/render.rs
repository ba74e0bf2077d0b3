use repo_radar::render::{format_bytes, percentage_text};
use repo_radar::render::html::{document, write_html, Html};
use repo_radar::render::text_summary::{not_evaluated_text, write_summary};
use repo_radar::{
    Analysis, DirectoryEntry, ExtensionCount, FileEntry, GitActivity, GitStatus, LanguageStat, LineCounts,
    NotEvaluated, ScanReport, ScanWarning,
};

#[test]
fn formats_bytes_for_humans() {
    assert_eq!(format_bytes(512), "512 B");
    assert_eq!(format_bytes(2048), "2.0 KiB");
}

#[test]
fn formats_each_unit_to_one_decimal() {
    assert_eq!(format_bytes(0), "0 B");
    assert_eq!(format_bytes(1023), "1023 B");
    assert_eq!(format_bytes(1024), "1.0 KiB");
    assert_eq!(format_bytes(1536), "1.5 KiB");
    assert_eq!(format_bytes(1280), "1.2 KiB", "an exact tie rounds to the even tenth");
    assert_eq!(format_bytes(1048575), "1024.0 KiB");
    assert_eq!(format_bytes(1048576), "1.0 MiB");
    assert_eq!(format_bytes(5 * 1073741824), "5.0 GiB");
    assert_eq!(format_bytes(u64::MAX), "17179869184.0 GiB");
}

#[test]
fn html_escapes_repository_content() {
    assert_eq!(Html::escape("<script>\"&").as_str(), "&lt;script&gt;&quot;&amp;");
}

#[test]
fn escaping_already_escaped_text_does_not_special_case_it() {
    assert_eq!(Html::escape("&lt;script&gt;").as_str(), "&amp;lt;script&amp;gt;");
}

#[test]
fn html_renders_repository_content_as_inert_text() {
    let report = ScanReport {
        largest_files: vec![FileEntry { path: "<script>evil</script>.rs".to_owned(), bytes: 10 }],
        ..ScanReport::default()
    };

    let mut output = String::new();
    write_html(&mut output, ".", &report);

    assert!(!output.contains("<script>evil</script>"));
    assert!(output.contains("&lt;script&gt;evil&lt;/script&gt;.rs"));
}

#[test]
fn markup_builds_up_in_order() {
    let mut html = Html::default();
    assert!(html.is_empty());
    html.push_static("<b>");
    html.push_escaped("a'b");
    html.push(&Html::number(42));
    html.push(&Html::from_static("</b>"));

    assert_eq!(html.as_str(), "<b>a&#39;b42</b>");
    assert!(!html.is_empty());
}

#[test]
fn the_dashboard_is_self_contained_and_escapes_every_value() {
    let report = ScanReport {
        files: 2,
        bytes: 2048,
        by_language: vec![LanguageStat { language: "R&D".to_owned(), files: 2, bytes: 2048, lines: 3 }],
        largest_directories: vec![DirectoryEntry { path: "a\u{1b}b".to_owned(), files: 2, bytes: 2048 }],
        warnings: vec![ScanWarning { path: "x".to_owned(), message: "<oops>".to_owned() }],
        ..ScanReport::default()
    };

    let html = document("/tmp/'repo'", &report);
    let text = html.as_str();

    assert!(text.starts_with("<!doctype html>"));
    assert!(text.ends_with("</html>"));
    assert!(text.contains("<title>Repo Radar | /tmp/&#39;repo&#39;</title>"));
    assert!(text.contains("R&amp;D"));
    assert!(text.contains("style=\"width:100.0%\""));
    assert!(text.contains("<strong>2.0 KiB</strong>"));
    assert!(text.contains("a\u{fffd}b"));
    assert!(text.contains("<code>x</code>: &lt;oops&gt;"));
    assert!(text.contains("<strong>not evaluated</strong><span>lines counted</span>"));
    assert!(!text.contains("http://") && !text.contains("https://"), "no request may leave the page");
}

#[test]
fn text_summary_matches_expected_shape() {
    let report = ScanReport {
        files: 1,
        bytes: 10,
        by_language: vec![LanguageStat { language: "Rust".to_owned(), files: 1, bytes: 10, lines: 1 }],
        largest_files: vec![FileEntry { path: "src/lib.rs".to_owned(), bytes: 10 }],
        lines: Analysis::Ran(LineCounts { lines: 1, text_files: 1, binary_files: 0, unreadable_files: 0 }),
        ..ScanReport::default()
    };

    let mut output = String::new();
    write_summary(&mut output, ".", &report);

    for heading in [
        "Repository:",
        "Files:",
        "Size:",
        "Lines:",
        "Git:",
        "Languages:",
        "Extensions:",
        "Largest files:",
        "Largest directories",
    ] {
        assert!(output.contains(heading), "missing heading '{heading}'");
    }
    assert!(output.ends_with('\n'), "text summary must end in a newline");
}

#[test]
fn text_summary_says_not_evaluated_when_line_counting_is_off() {
    let report = ScanReport {
        files: 1,
        bytes: 10,
        by_language: vec![LanguageStat { language: "Rust".to_owned(), files: 1, bytes: 10, lines: 0 }],
        lines: Analysis::NotEvaluated(NotEvaluated::Disabled),
        ..ScanReport::default()
    };

    let mut output = String::new();
    write_summary(&mut output, ".", &report);

    assert!(
        output.contains("Lines:      not evaluated"),
        "the Lines row must say not evaluated rather than print a zero"
    );
    for line in output.lines() {
        if line.contains("Rust") {
            assert!(
                !line.contains("lines"),
                "a language row must not carry a lines column when line counting is disabled: {line:?}"
            );
        }
    }
}

#[test]
fn text_summary_reports_git_results_when_evaluated() {
    let report = ScanReport {
        git_status: Analysis::Ran(GitStatus { modified: 2, staged: 1, untracked: 3, ignored: 4 }),
        git_activity: Analysis::Ran(GitActivity { window_days: 30, commits: 5, by_day: Vec::new() }),
        ..ScanReport::default()
    };

    let mut output = String::new();
    write_summary(&mut output, ".", &report);

    assert!(output.contains("2 modified, 1 staged, 3 untracked, 4 ignored"));
    assert!(output.contains("5 commits in the last 30 days"));
}

#[test]
fn text_summary_names_the_reason_when_git_was_not_evaluated() {
    let report = ScanReport {
        git_status: Analysis::NotEvaluated(NotEvaluated::InputUnavailable("not a Git worktree".to_owned())),
        git_activity: Analysis::NotEvaluated(NotEvaluated::InputUnavailable("not a Git worktree".to_owned())),
        ..ScanReport::default()
    };

    let mut output = String::new();
    write_summary(&mut output, ".", &report);

    assert!(
        output.contains("Status:   not evaluated (not a Git worktree)"),
        "a not-evaluated Git row must name its reason, not just say not evaluated: {output:?}"
    );
    assert!(output.contains("Activity: not evaluated (not a Git worktree)"));
}

#[test]
fn text_summary_lays_out_every_row() {
    let report = ScanReport {
        files: 3,
        bytes: 3000,
        by_extension: vec![ExtensionCount { extension: "rs".to_owned(), files: 3 }],
        by_language: vec![LanguageStat { language: "Rust".to_owned(), files: 3, bytes: 3000, lines: 120 }],
        largest_files: vec![FileEntry { path: "src/main\u{7}.rs".to_owned(), bytes: 2000 }],
        largest_directories: vec![DirectoryEntry { path: "src".to_owned(), files: 3, bytes: 3000 }],
        lines: Analysis::Ran(LineCounts { lines: 120, text_files: 3, binary_files: 0, unreadable_files: 0 }),
        git_status: Analysis::NotEvaluated(NotEvaluated::Disabled),
        ..ScanReport::default()
    };

    let mut output = String::from("> ");
    write_summary(&mut output, "/repo", &report);

    let expected = [
        "> Repository: /repo\n",
        "Files:      3\n",
        "Size:       2.9 KiB\n",
        "Lines:      120\n",
        "\nGit:\n",
        "  Status:   not evaluated (disabled)\n",
        "  Activity: not evaluated (disabled)\n",
        "\nLanguages:\n",
        "  Rust               3 files    2.9 KiB         120 lines\n",
        "\nExtensions:\n",
        "  rs               3\n",
        "\nLargest files:\n",
        "     2.0 KiB  src/main\u{fffd}.rs\n",
        "\nLargest directories (aggregate, including subdirectories):\n",
        "     2.9 KiB  src\n",
    ]
    .concat();
    assert_eq!(output, expected);
    assert_eq!(not_evaluated_text(&NotEvaluated::Unsupported("no XML parser".to_owned())), "no XML parser");
}

/// Byte counts spread over the whole range of `u64`, with the edges of
/// each unit and of the 53 bits a double holds.
fn sample_counts() -> Vec<u64> {
    let mut counts = vec![0, 1, 1023, 1024, 1025, 1048575, 1048576, 1073741823, 1073741824, u64::MAX, u64::MAX - 1];
    for shift in 0..64u32 {
        let power = 1u64 << shift;
        counts.extend([power - 1, power, power.wrapping_add(1), power | (power >> 1)]);
    }
    let mut state: u64 = 0x9e37_79b9_7f4a_7c15;
    for _ in 0..2000 {
        state = state.wrapping_mul(6364136223846793005).wrapping_add(1442695040888963407);
        counts.push(state >> (state % 64));
    }
    counts
}

fn format_bytes_in_floating_point(bytes: u64) -> String {
    let units = ["B", "KiB", "MiB", "GiB"];
    let mut value = bytes as f64;
    let mut unit = 0;
    while value >= 1024.0 && unit < units.len() - 1 {
        value /= 1024.0;
        unit += 1;
    }
    if unit == 0 {
        format!("{bytes} B")
    } else {
        format!("{value:.1} {}", units[unit])
    }
}

#[test]
fn byte_sizes_agree_with_floating_point_formatting() {
    for bytes in sample_counts() {
        assert_eq!(format_bytes(bytes), format_bytes_in_floating_point(bytes), "bytes = {bytes}");
    }
}

#[test]
fn bar_widths_are_percentages_to_one_decimal() {
    assert_eq!(percentage_text(0, 5), "0.0");
    assert_eq!(percentage_text(5, 5), "100.0");
    assert_eq!(percentage_text(1, 3), "33.3");
    assert_eq!(percentage_text(2, 3), "66.7");
    assert_eq!(percentage_text(1, 8), "12.5");
    assert_eq!(percentage_text(1, 2048), "0.0");
    assert_eq!(percentage_text(1024, 2048), "50.0");
    assert_eq!(percentage_text(u64::MAX - 1, u64::MAX), "100.0");
}

#[test]
fn bar_widths_agree_with_floating_point_formatting() {
    let counts = sample_counts();
    for (i, &a) in counts.iter().enumerate() {
        let b = counts[(i * 7 + 3) % counts.len()];
        let (part, whole) = if a <= b { (a, b) } else { (b, a) };
        let whole = whole.max(1);
        let expected = format!("{:.1}", (part as f64 / whole as f64) * 100.0);
        assert_eq!(percentage_text(part, whole), expected, "{part} of {whole}");
    }
    for whole in 1..=400u64 {
        for part in 0..=whole {
            let expected = format!("{:.1}", (part as f64 / whole as f64) * 100.0);
            assert_eq!(percentage_text(part, whole), expected, "{part} of {whole}");
        }
    }
}

#[test]
fn bars_are_measured_against_the_largest_language() {
    let report = ScanReport {
        files: 3,
        bytes: 3072,
        by_language: vec![
            LanguageStat { language: "Rust".to_owned(), files: 1, bytes: 2048, lines: 1 },
            LanguageStat { language: "Shell".to_owned(), files: 2, bytes: 1024, lines: 1 },
        ],
        ..ScanReport::default()
    };
    let html = document(".", &report);
    let text = html.as_str();
    let rust = text.find("style=\"width:100.0%\"").expect("the largest language fills its bar");
    let shell = text.find("style=\"width:50.0%\"").expect("half the bytes, half the bar");
    assert!(rust < shell, "bars follow the order of the languages");
}

#[test]
fn renderers_are_reusable_across_sinks() {
    let report = ScanReport::default();

    let mut text_a = String::new();
    let mut text_b = String::new();
    write_summary(&mut text_a, ".", &report);
    write_summary(&mut text_b, ".", &report);
    assert_eq!(text_a, text_b);

    let mut html_a = String::new();
    let mut html_b = String::new();
    write_html(&mut html_a, ".", &report);
    write_html(&mut html_b, ".", &report);
    assert_eq!(html_a, html_b);
}

fn unescape(text: &str) -> String {
    text.replace("&lt;", "<").replace("&gt;", ">").replace("&quot;", "\"").replace("&#39;", "'").replace("&amp;", "&")
}

#[test]
fn escaped_text_reads_back_as_the_original() {
    for text in ["plain", "<a href=\"x\">it's</a>", "&amp; already", "&lt;&&gt;", ""] {
        assert_eq!(unescape(Html::escape(text).as_str()), text);
    }
}

#[test]
fn the_summary_prints_no_control_character_but_line_breaks() {
    let report = ScanReport {
        files: 1,
        bytes: 3,
        by_language: vec![LanguageStat { language: "\u{1b}[31mRust".to_owned(), files: 1, bytes: 3, lines: 1 }],
        by_extension: vec![ExtensionCount { extension: "r\u{7}s".to_owned(), files: 1 }],
        largest_files: vec![FileEntry { path: "a\tb\r\n.rs".to_owned(), bytes: 3 }],
        largest_directories: vec![DirectoryEntry { path: "d\u{9b}".to_owned(), files: 1, bytes: 3 }],
        ..ScanReport::default()
    };
    let mut output = String::new();
    write_summary(&mut output, "root\u{1b}", &report);

    assert!(output.chars().all(|c| c == '\n' || !c.is_control()), "{output:?}");
}
