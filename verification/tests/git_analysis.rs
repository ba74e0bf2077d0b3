use repo_radar::analysis::git::{
    activity_analysis, analyze, commit_check, group_by_day, parse_porcelain, status_analysis, worktree_status,
    CommandOutput, CommitCheck, WorktreeStatus, GIT_UNAVAILABLE, INVALID_UTF8, LOG_FAILED, NOT_A_WORKTREE,
    NO_COMMITS, STATUS_FAILED, STATUS_SIZE_LIMIT, STATUS_TOO_LARGE, HEAD_CHECK_FAILED,
};
use repo_radar::{Analysis, DayCount, GitStatus, NotEvaluated, ScanConfig};

fn output(spawned: bool, success: bool, stdout: &str) -> CommandOutput {
    CommandOutput { spawned, success, stdout: stdout.as_bytes().to_vec() }
}

#[test]
fn porcelain_classifies_each_status_prefix() {
    assert_eq!(parse_porcelain(" M a"), GitStatus { modified: 1, ..GitStatus::default() });
    assert_eq!(parse_porcelain("M  a"), GitStatus { staged: 1, ..GitStatus::default() });
    assert_eq!(
        parse_porcelain("MM a"),
        GitStatus { staged: 1, modified: 1, ..GitStatus::default() },
        "a path with staged changes and further unstaged edits is genuinely in both states"
    );
    assert_eq!(parse_porcelain("?? a"), GitStatus { untracked: 1, ..GitStatus::default() });
    assert_eq!(parse_porcelain("!! a"), GitStatus { ignored: 1, ..GitStatus::default() });
}

#[test]
fn porcelain_ignores_short_and_empty_lines() {
    assert_eq!(parse_porcelain(""), GitStatus::default());
    assert_eq!(parse_porcelain("M"), GitStatus::default());
    assert_eq!(parse_porcelain("??"), GitStatus::default());
}

#[test]
fn porcelain_counts_quoted_paths_as_one_entry() {
    let quoted = "?? \"evil\\nnewline.txt\"";

    assert_eq!(parse_porcelain(quoted), GitStatus { untracked: 1, ..GitStatus::default() });
}

#[test]
fn activity_groups_commits_by_day_ascending() {
    let log = "2026-09-03\n2026-09-01\n2026-09-03\n2026-09-02\n";

    let activity = group_by_day(log, 30);

    assert_eq!(activity.commits, 4);
    assert_eq!(
        activity.by_day,
        vec![
            DayCount { date: "2026-09-01".to_owned(), commits: 1 },
            DayCount { date: "2026-09-02".to_owned(), commits: 1 },
            DayCount { date: "2026-09-03".to_owned(), commits: 2 },
        ],
        "unsorted input must produce ascending by_day with correct per-day counts"
    );
}

#[test]
fn activity_omits_days_with_no_commits() {
    let log = "2026-09-01\n2026-09-05\n";

    let activity = group_by_day(log, 30);

    assert_eq!(
        activity.by_day,
        vec![
            DayCount { date: "2026-09-01".to_owned(), commits: 1 },
            DayCount { date: "2026-09-05".to_owned(), commits: 1 },
        ],
        "a gap between two dates must not produce a zero row"
    );
}

#[test]
fn porcelain_counts_every_line_of_a_mixed_status() {
    let status = parse_porcelain(" M a\r\nA  b\nAM c\n?? d\n?? e\n!! target/\nR  old -> new\n");

    assert_eq!(status, GitStatus { modified: 2, staged: 3, untracked: 2, ignored: 1 });
}

#[test]
fn activity_trims_dates_and_skips_blank_lines() {
    let activity = group_by_day("  2026-01-02  \n\n\r\n2026-01-01\r\n2026-01-02", 7);

    assert_eq!(activity.window_days, 7);
    assert_eq!(activity.commits, 3);
    assert_eq!(
        activity.by_day,
        vec![
            DayCount { date: "2026-01-01".to_owned(), commits: 1 },
            DayCount { date: "2026-01-02".to_owned(), commits: 2 },
        ]
    );
    let total: usize = activity.by_day.iter().map(|day| day.commits).sum();
    assert_eq!(total, activity.commits, "the days add up to the commits");
}

#[test]
fn a_bare_repository_is_not_a_worktree() {
    assert_eq!(worktree_status(&output(true, true, "true\n")), WorktreeStatus::Worktree);
    assert_eq!(worktree_status(&output(true, true, "false\n")), WorktreeStatus::NotAWorktree);
    assert_eq!(worktree_status(&output(true, false, "")), WorktreeStatus::NotAWorktree);
    assert_eq!(worktree_status(&output(false, false, "")), WorktreeStatus::GitUnavailable);
    let not_text = CommandOutput { spawned: true, success: true, stdout: vec![0xff, b't'] };
    assert_eq!(worktree_status(&not_text), WorktreeStatus::NotAWorktree);
}

#[test]
fn the_head_check_follows_the_exit_status() {
    assert_eq!(commit_check(&output(true, true, "abc\n")), CommitCheck::HasCommits);
    assert_eq!(commit_check(&output(true, false, "")), CommitCheck::NoCommits);
    assert_eq!(commit_check(&output(false, false, "")), CommitCheck::CheckFailed);
}

#[test]
fn status_analysis_refuses_each_unusable_output() {
    assert_eq!(
        status_analysis(&output(true, false, "?? a\n")),
        Analysis::NotEvaluated(NotEvaluated::Failed(STATUS_FAILED.to_owned()))
    );
    assert_eq!(
        status_analysis(&output(false, false, "")),
        Analysis::NotEvaluated(NotEvaluated::Failed(STATUS_FAILED.to_owned()))
    );
    let oversized = CommandOutput { spawned: true, success: true, stdout: vec![b'?'; STATUS_SIZE_LIMIT + 1] };
    assert_eq!(
        status_analysis(&oversized),
        Analysis::NotEvaluated(NotEvaluated::Failed(STATUS_TOO_LARGE.to_owned()))
    );
    let not_text = CommandOutput { spawned: true, success: true, stdout: vec![b'?', b'?', b' ', 0xc3] };
    assert_eq!(
        status_analysis(&not_text),
        Analysis::NotEvaluated(NotEvaluated::Failed(INVALID_UTF8.to_owned()))
    );
    assert_eq!(
        status_analysis(&output(true, true, "?? a\n M b\n")),
        Analysis::Ran(GitStatus { untracked: 1, modified: 1, ..GitStatus::default() })
    );
}

#[test]
fn activity_analysis_groups_what_the_log_printed() {
    let Analysis::Ran(activity) = activity_analysis(&output(true, true, "2026-02-01\n2026-02-01\n"), 14) else {
        panic!("a successful log must be grouped");
    };
    assert_eq!(activity.commits, 2);
    assert_eq!(activity.window_days, 14);
    assert_eq!(activity.by_day, vec![DayCount { date: "2026-02-01".to_owned(), commits: 2 }]);
    assert_eq!(
        activity_analysis(&output(true, false, ""), 14),
        Analysis::NotEvaluated(NotEvaluated::Failed(LOG_FAILED.to_owned()))
    );
}

#[test]
fn analyze_degrades_instead_of_failing() {
    let config = ScanConfig::default();

    let (status, activity) = analyze(&config, None, None, None, None);
    assert_eq!(status, Analysis::NotEvaluated(NotEvaluated::InputUnavailable(GIT_UNAVAILABLE.to_owned())));
    assert_eq!(activity, Analysis::NotEvaluated(NotEvaluated::InputUnavailable(GIT_UNAVAILABLE.to_owned())));

    let outside = output(true, false, "");
    let (status, activity) = analyze(&config, Some(&outside), None, None, None);
    assert_eq!(status, Analysis::NotEvaluated(NotEvaluated::InputUnavailable(NOT_A_WORKTREE.to_owned())));
    assert_eq!(activity, Analysis::NotEvaluated(NotEvaluated::InputUnavailable(NOT_A_WORKTREE.to_owned())));

    let inside = output(true, true, "true\n");
    let clean = output(true, true, "");
    let unborn = output(true, false, "");
    let (status, activity) = analyze(&config, Some(&inside), Some(&clean), Some(&unborn), None);
    assert_eq!(status, Analysis::Ran(GitStatus::default()));
    assert_eq!(activity, Analysis::NotEvaluated(NotEvaluated::InputUnavailable(NO_COMMITS.to_owned())));

    let (_, activity) = analyze(&config, Some(&inside), Some(&clean), None, None);
    assert_eq!(activity, Analysis::NotEvaluated(NotEvaluated::Failed(HEAD_CHECK_FAILED.to_owned())));

    let head = output(true, true, "0123abcd\n");
    let log = output(true, true, "2026-03-04\n");
    let (_, activity) = analyze(&config, Some(&inside), Some(&clean), Some(&head), Some(&log));
    let Analysis::Ran(activity) = activity else {
        panic!("a repository with commits must report activity");
    };
    assert_eq!(activity.commits, 1);
    assert_eq!(activity.window_days, 30);
}

#[test]
fn analyze_reports_disabled_when_switched_off() {
    let config = ScanConfig { read_git: false, ..ScanConfig::default() };
    let inside = output(true, true, "true\n");

    let (status, activity) = analyze(&config, Some(&inside), None, None, None);

    assert_eq!(status, Analysis::NotEvaluated(NotEvaluated::Disabled));
    assert_eq!(activity, Analysis::NotEvaluated(NotEvaluated::Disabled));
}

#[test]
fn reordering_the_log_lines_changes_no_day() {
    let forward = group_by_day("2026-01-03\n2026-01-01\n2026-01-03\n2026-01-02\n", 30);
    let backward = group_by_day("2026-01-02\n2026-01-03\n2026-01-01\n2026-01-03\n", 30);

    assert_eq!(forward, backward);
    assert_eq!(forward.commits, 4);
    assert_eq!(forward.by_day[2], DayCount { date: "2026-01-03".to_owned(), commits: 2 });
}
