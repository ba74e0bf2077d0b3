//! Git status counts and recent commit activity, decided from what `git`
//! printed and how it exited.
use vstd::prelude::*;

use crate::boundary;
use crate::scan::tally::{self, bump, files_at, has_key, keys_sorted, Tally};
use crate::text::{self, char_lines, lines_of, str_le, trim};
use crate::{Analysis, NotEvaluated, ScanConfig};

verus! {

/// Counts of paths in each Git status category.
#[derive(Debug, Clone, PartialEq, Eq)]
pub struct GitStatus {
    /// Paths with worktree changes not yet staged.
    pub modified: usize,
    /// Paths with staged changes.
    pub staged: usize,
    /// Paths Git does not track and that no ignore rule covers.
    pub untracked: usize,
    /// Paths excluded by an ignore rule.
    pub ignored: usize,
}

impl Default for GitStatus {
    fn default() -> (status: Self)
        ensures
            status == (GitStatus { modified: 0, staged: 0, untracked: 0, ignored: 0 }),
    {
        GitStatus { modified: 0, staged: 0, untracked: 0, ignored: 0 }
    }
}

/// Commit counts per day over a bounded recent window.
#[derive(Debug, Clone, PartialEq, Eq)]
pub struct GitActivity {
    /// The window this covers, in days back from today.
    pub window_days: u32,
    /// Total commits in the window.
    pub commits: usize,
    /// Commits per day, ascending by date, omitting days with no commits.
    pub by_day: Vec<DayCount>,
}

impl Default for GitActivity {
    fn default() -> (activity: Self)
        ensures
            activity.window_days == 0,
            activity.commits == 0,
            activity.by_day@.len() == 0,
    {
        GitActivity { window_days: 0, commits: 0, by_day: Vec::new() }
    }
}

/// One day's commit count.
#[derive(Debug, Clone, PartialEq, Eq)]
pub struct DayCount {
    /// ISO `YYYY-MM-DD`.
    pub date: String,
    /// Commits authored on that date.
    pub commits: usize,
}


/// `NotEvaluated` detail strings. These are tool-authored constants, never
/// git's own stderr text, which repository content can influence.
pub const GIT_UNAVAILABLE: &'static str = "git is not available";
pub const NOT_A_WORKTREE: &'static str = "not a Git worktree";
pub const NO_COMMITS: &'static str = "repository has no commits yet";
pub const STATUS_FAILED: &'static str = "git status failed";
pub const STATUS_TOO_LARGE: &'static str = "status output exceeded the size limit";
pub const LOG_FAILED: &'static str = "git log failed";
pub const HEAD_CHECK_FAILED: &'static str = "could not check for commits";
pub const INVALID_UTF8: &'static str = "git output was not valid UTF-8";

/// Status output larger than this is refused rather than parsed.
pub const STATUS_SIZE_LIMIT: usize = 8388608;

/// What running one `git` command produced: whether it could be started at
/// all, whether it exited successfully, and what it printed on stdout.
#[derive(Debug, Clone, PartialEq, Eq)]
pub struct CommandOutput {
    pub spawned: bool,
    pub success: bool,
    pub stdout: Vec<u8>,
}

/// What `rev-parse --is-inside-work-tree` established about the root.
#[derive(Debug, Clone, Copy, PartialEq, Eq, Structural)]
pub enum WorktreeStatus {
    /// `git` could not be started at all.
    GitUnavailable,
    /// `git` ran, but the root is not inside a worktree (a bare repository
    /// exits 0 and prints `false`).
    NotAWorktree,
    /// The root is inside a Git worktree.
    Worktree,
}

/// What `rev-parse --verify HEAD` established.
#[derive(Debug, Clone, Copy, PartialEq, Eq, Structural)]
pub enum CommitCheck {
    HasCommits,
    /// The repository has no commits yet.
    NoCommits,
    /// `git` could not be run for this check.
    CheckFailed,
}

pub open spec fn worktree_status_of(output: CommandOutput) -> WorktreeStatus {
    if !output.spawned {
        WorktreeStatus::GitUnavailable
    } else if !output.success {
        WorktreeStatus::NotAWorktree
    } else if vstd::utf8::valid_utf8(output.stdout@) && trim(vstd::utf8::decode_utf8(output.stdout@)) == "true"@ {
        WorktreeStatus::Worktree
    } else {
        WorktreeStatus::NotAWorktree
    }
}

/// Decides the worktree check: the exit code alone is not enough, since a
/// bare repository exits 0 and prints `false`.
pub fn worktree_status(output: &CommandOutput) -> (status: WorktreeStatus)
    ensures
        status == worktree_status_of(*output),
{
    if !output.spawned {
        return WorktreeStatus::GitUnavailable;
    }
    if !output.success {
        return WorktreeStatus::NotAWorktree;
    }
    match boundary::string_from_utf8(output.stdout.clone()) {
        Some(stdout) => {
            let chars = text::chars_of(stdout.as_str());
            let (a, b) = text::trim_bounds(&chars, 0, chars.len());
            assert(chars@.subrange(0, chars@.len() as int) =~= chars@);
            if text::chars_eq(&chars, a, b, &text::chars_of("true")) {
                WorktreeStatus::Worktree
            } else {
                WorktreeStatus::NotAWorktree
            }
        },
        None => WorktreeStatus::NotAWorktree,
    }
}

pub open spec fn commit_check_of(output: CommandOutput) -> CommitCheck {
    if !output.spawned {
        CommitCheck::CheckFailed
    } else if output.success {
        CommitCheck::HasCommits
    } else {
        CommitCheck::NoCommits
    }
}

/// Decides the `HEAD` check from how `rev-parse --verify HEAD` exited.
pub fn commit_check(output: &CommandOutput) -> (check: CommitCheck)
    ensures
        check == commit_check_of(*output),
{
    if !output.spawned {
        CommitCheck::CheckFailed
    } else if output.success {
        CommitCheck::HasCommits
    } else {
        CommitCheck::NoCommits
    }
}

/// Status counts over porcelain v1 lines: `??` is untracked, `!!` ignored;
/// otherwise a first byte other than a space is a staged change and a second
/// byte other than a space an unstaged one, independently. Lines shorter than
/// three bytes are skipped.
pub open spec fn porcelain_counts(lines: Seq<Seq<u8>>) -> (nat, nat, nat, nat)
    decreases lines.len(),
{
    if lines.len() == 0 {
        (0, 0, 0, 0)
    } else {
        let (m, s, u, i) = porcelain_counts(lines.drop_last());
        let line = lines.last();
        if line.len() < 3 {
            (m, s, u, i)
        } else if line[0] == 63 && line[1] == 63 {
            (m, s, u + 1, i)
        } else if line[0] == 33 && line[1] == 33 {
            (m, s, u, i + 1)
        } else {
            (m + if line[1] != 32 { 1nat } else { 0nat }, s + if line[0] != 32 { 1nat } else { 0nat }, u, i)
        }
    }
}

/// The porcelain lines of `bytes`, split as `str::lines` splits.
pub open spec fn porcelain_lines(bytes: Seq<u8>) -> Seq<Seq<u8>> {
    lines_of(bytes, 10u8, 13u8)
}

pub open spec fn status_of(bytes: Seq<u8>) -> GitStatus {
    let (m, s, u, i) = porcelain_counts(porcelain_lines(bytes));
    GitStatus { modified: m as usize, staged: s as usize, untracked: u as usize, ignored: i as usize }
}

proof fn lemma_porcelain_counts_concat(a: Seq<Seq<u8>>, b: Seq<Seq<u8>>)
    ensures
        ({
            let (m1, s1, u1, i1) = porcelain_counts(a);
            let (m2, s2, u2, i2) = porcelain_counts(b);
            porcelain_counts(a + b) == (m1 + m2, s1 + s2, u1 + u2, i1 + i2)
        }),
    decreases b.len(),
{
    if b.len() == 0 {
        assert(a + b =~= a);
    } else {
        lemma_porcelain_counts_concat(a, b.drop_last());
        assert((a + b).drop_last() =~= a + b.drop_last());
    }
}

/// Status lines count as porcelain v1 describes them, and their counts add
/// up: a `??` line is one untracked path and a `!!` line one ignored path;
/// on any other line a first byte other than a space is a staged change and
/// a second byte other than a space a change not yet staged, both at once
/// when both hold; a line under three bytes counts for nothing.
pub proof fn status_lines_count_as_porcelain_says(a: Seq<Seq<u8>>, b: Seq<Seq<u8>>, line: Seq<u8>)
    ensures
        ({
            let (m1, s1, u1, i1) = porcelain_counts(a);
            let (m2, s2, u2, i2) = porcelain_counts(b);
            porcelain_counts(a + b) == (m1 + m2, s1 + s2, u1 + u2, i1 + i2)
        }),
        line.len() < 3 ==> porcelain_counts(seq![line]) == (0nat, 0nat, 0nat, 0nat),
        line.len() >= 3 && line[0] == 0x3f && line[1] == 0x3f ==> porcelain_counts(seq![line]) == (0nat, 0nat, 1nat, 0nat),
        line.len() >= 3 && line[0] == 0x21 && line[1] == 0x21 ==> porcelain_counts(seq![line]) == (0nat, 0nat, 0nat, 1nat),
        line.len() >= 3 && line[0] == 0x20 && line[1] != 0x20 ==> porcelain_counts(seq![line]) == (1nat, 0nat, 0nat, 0nat),
        line.len() >= 3 && line[0] != 0x20 && line[0] != 0x3f && line[0] != 0x21 && line[1] == 0x20
            ==> porcelain_counts(seq![line]) == (0nat, 1nat, 0nat, 0nat),
        line.len() >= 3 && line[0] != 0x20 && line[0] != 0x3f && line[0] != 0x21 && line[1] != 0x20
            ==> porcelain_counts(seq![line]) == (1nat, 1nat, 0nat, 0nat),
{
    lemma_porcelain_counts_concat(a, b);
    assert(seq![line].drop_last() =~= Seq::<Seq<u8>>::empty());
    assert(seq![line].last() == line);
    assert(porcelain_counts(Seq::<Seq<u8>>::empty()) == (0nat, 0nat, 0nat, 0nat));
    assert(porcelain_counts(seq![line]) == {
        let (m, s, u, i) = porcelain_counts(seq![line].drop_last());
        if line.len() < 3 {
            (m, s, u, i)
        } else if line[0] == 63 && line[1] == 63 {
            (m, s, u + 1, i)
        } else if line[0] == 33 && line[1] == 33 {
            (m, s, u, i + 1)
        } else {
            (m + if line[1] != 32 { 1nat } else { 0nat }, s + if line[0] != 32 { 1nat } else { 0nat }, u, i)
        }
    });
}

/// Classifies porcelain v1 status lines. Only the first two bytes of each line
/// are read, so a rename's ` -> ` separator needs no handling, and a name Git
/// C-quotes because it holds a newline stays on its one line.
pub fn parse_porcelain(stdout: &str) -> (status: GitStatus)
    ensures
        status == status_of(vstd::utf8::encode_utf8(stdout@)),
{
    let bytes = stdout.as_bytes();
    let n = bytes.len();
    let ghost all = bytes@;
    let mut modified: usize = 0;
    let mut staged: usize = 0;
    let mut untracked: usize = 0;
    let mut ignored: usize = 0;
    let mut pos: usize = 0;
    assert(all.subrange(0, n as int) =~= all);
    while pos < n
        invariant
            pos <= n == all.len(),
            bytes@ == all,
            modified <= pos && staged <= pos && untracked <= pos && ignored <= pos,
            ({
                let (m, s, u, i) = porcelain_counts(porcelain_lines(all));
                let (m2, s2, u2, i2) = porcelain_counts(porcelain_lines(all.subrange(pos as int, n as int)));
                m == modified + m2 && s == staged + s2 && u == untracked + u2 && i == ignored + i2
            }),
        decreases n - pos,
    {
        let (lo, hi, next) = text::next_line(bytes, pos, 10u8, 13u8);
        let ghost line = all.subrange(lo as int, hi as int);
        let ghost rest = all.subrange(next as int, n as int);
        proof {
            assert(porcelain_lines(all.subrange(pos as int, n as int)) == seq![line] + porcelain_lines(rest));
            lemma_porcelain_counts_concat(seq![line], porcelain_lines(rest));
            assert((seq![line]).drop_last() =~= Seq::<Seq<u8>>::empty());
            assert(porcelain_counts(Seq::<Seq<u8>>::empty()) == (0nat, 0nat, 0nat, 0nat));
        }
        if hi - lo >= 3 {
            let x = bytes[lo];
            let y = bytes[lo + 1];
            if x == 63 && y == 63 {
                untracked += 1;
            } else if x == 33 && y == 33 {
                ignored += 1;
            } else {
                if x != 32 {
                    staged += 1;
                }
                if y != 32 {
                    modified += 1;
                }
            }
        }
        pos = next;
    }
    assert(porcelain_lines(all.subrange(n as int, n as int)) =~= Seq::<Seq<u8>>::empty()) by {
        assert(all.subrange(n as int, n as int).len() == 0);
    }
    GitStatus { modified, staged, untracked, ignored }
}


/// The dates in `git log --date=short --pretty=tformat:%ad` output: each
/// line trimmed, blank lines dropped, in order.
pub open spec fn log_dates(lines: Seq<Seq<char>>) -> Seq<Seq<char>>
    decreases lines.len(),
{
    if lines.len() == 0 {
        seq![]
    } else if trim(lines.last()).len() == 0 {
        log_dates(lines.drop_last())
    } else {
        log_dates(lines.drop_last()).push(trim(lines.last()))
    }
}

/// How often `d` occurs in `dates`.
pub open spec fn occurrences(dates: Seq<Seq<char>>, d: Seq<char>) -> nat
    decreases dates.len(),
{
    if dates.len() == 0 {
        0
    } else {
        occurrences(dates.drop_last(), d) + if dates.last() == d {
            1nat
        } else {
            0nat
        }
    }
}

/// The commits over all days.
pub open spec fn day_total(by_day: Seq<DayCount>) -> nat
    decreases by_day.len(),
{
    if by_day.len() == 0 {
        0
    } else {
        day_total(by_day.drop_last()) + by_day.last().commits as nat
    }
}

/// `by_day` holds each date of `dates` once, ascending, with how often it
/// occurs.
pub open spec fn groups_days(by_day: Seq<DayCount>, dates: Seq<Seq<char>>) -> bool {
    &&& forall|i: int, j: int| 0 <= i < j < by_day.len() ==> str_le(#[trigger] by_day[i].date@, #[trigger] by_day[j].date@)
        && by_day[i].date@ != by_day[j].date@
    &&& forall|i: int| 0 <= i < by_day.len() ==> (#[trigger] by_day[i]).commits == occurrences(dates, by_day[i].date@)
        && by_day[i].commits > 0
    &&& forall|d: Seq<char>| occurrences(dates, d) > 0 ==> exists|i: int| 0 <= i < by_day.len() && (#[trigger] by_day[i]).date@ == d
}

proof fn lemma_log_dates_concat(a: Seq<Seq<char>>, b: Seq<Seq<char>>)
    ensures
        log_dates(a + b) == log_dates(a) + log_dates(b),
    decreases b.len(),
{
    if b.len() == 0 {
        assert(a + b =~= a);
        assert(log_dates(a) + log_dates(b) =~= log_dates(a));
    } else {
        lemma_log_dates_concat(a, b.drop_last());
        assert((a + b).drop_last() =~= a + b.drop_last());
        if trim(b.last()).len() != 0 {
            assert(log_dates(a) + log_dates(b.drop_last()).push(trim(b.last())) =~= (log_dates(a) + log_dates(b.drop_last())).push(trim(b.last())));
        }
    }
}

proof fn lemma_occurrences_concat(a: Seq<Seq<char>>, b: Seq<Seq<char>>, d: Seq<char>)
    ensures
        occurrences(a + b, d) == occurrences(a, d) + occurrences(b, d),
    decreases b.len(),
{
    if b.len() == 0 {
        assert(a + b =~= a);
    } else {
        lemma_occurrences_concat(a, b.drop_last(), d);
        assert((a + b).drop_last() =~= a + b.drop_last());
    }
}

/// Two logs holding the same lines, in any order, hold each date as often.
proof fn lemma_dates_ignore_line_order(first: Seq<Seq<char>>, second: Seq<Seq<char>>, d: Seq<char>)
    requires
        first.to_multiset() == second.to_multiset(),
    ensures
        occurrences(log_dates(first), d) == occurrences(log_dates(second), d),
        log_dates(first).len() == log_dates(second).len(),
    decreases first.len(),
{
    broadcast use vstd::seq_lib::group_to_multiset_ensures;

    assert(first.to_multiset().len() == first.len());
    assert(second.to_multiset().len() == second.len());
    if first.len() > 0 {
        let x = first.last();
        assert(first.to_multiset().count(x) > 0) by {
            assert(first.contains(x));
        }
        assert(second.contains(x));
        let j = choose|j: int| 0 <= j < second.len() && second[j] == x;
        let s1 = second.subrange(0, j);
        let s2 = second.subrange(j + 1, second.len() as int);
        let rest = s1 + s2;
        assert(rest =~= second.remove(j));
        vstd::seq_lib::to_multiset_remove(second, j);
        vstd::seq_lib::to_multiset_remove(first, first.len() - 1);
        assert(first.remove(first.len() - 1) =~= first.drop_last());
        lemma_dates_ignore_line_order(first.drop_last(), rest, d);
        assert(first =~= first.drop_last() + seq![x]);
        assert(second =~= s1 + (seq![x] + s2));
        lemma_log_dates_concat(first.drop_last(), seq![x]);
        lemma_log_dates_concat(s1, seq![x] + s2);
        lemma_log_dates_concat(seq![x], s2);
        lemma_log_dates_concat(s1, s2);
        lemma_occurrences_concat(log_dates(first.drop_last()), log_dates(seq![x]), d);
        lemma_occurrences_concat(log_dates(s1), log_dates(seq![x] + s2), d);
        lemma_occurrences_concat(log_dates(seq![x]), log_dates(s2), d);
        lemma_occurrences_concat(log_dates(s1), log_dates(s2), d);
    }
}

/// `days` lists `d` among its dates.
pub open spec fn lists_date(days: Seq<DayCount>, d: Seq<char>) -> bool {
    exists|i: int| 0 <= i < days.len() && (#[trigger] days[i]).date@ == d
}

/// `days` is strictly ascending by date.
pub open spec fn ascending_days(days: Seq<DayCount>) -> bool {
    forall|i: int, j: int| 0 <= i < j < days.len() ==> str_le(#[trigger] days[i].date@, #[trigger] days[j].date@)
        && days[i].date@ != days[j].date@
}

/// Two strictly ascending lists of the same dates list them in the same
/// places.
proof fn lemma_same_dates_same_places(a: Seq<DayCount>, b: Seq<DayCount>)
    requires
        ascending_days(a),
        ascending_days(b),
        forall|d: Seq<char>| lists_date(a, d) <==> lists_date(b, d),
    ensures
        a.len() == b.len(),
        forall|i: int| 0 <= i < a.len() ==> (#[trigger] a[i]).date@ == b[i].date@,
    decreases a.len(),
{
    if a.len() == 0 {
        if b.len() > 0 {
            assert(lists_date(b, b[0].date@));
        }
    } else if b.len() == 0 {
        assert(lists_date(a, a[0].date@));
    } else {
        assert(lists_date(a, a[0].date@));
        assert(lists_date(b, b[0].date@));
        let k = choose|k: int| 0 <= k < b.len() && (#[trigger] b[k]).date@ == a[0].date@;
        let m = choose|m: int| 0 <= m < a.len() && (#[trigger] a[m]).date@ == b[0].date@;
        if k > 0 {
            assert(str_le(b[0].date@, b[k].date@));
        } else {
            text::lemma_str_le_reflexive(b[0].date@);
        }
        if m > 0 {
            assert(str_le(a[0].date@, a[m].date@));
        } else {
            text::lemma_str_le_reflexive(a[0].date@);
        }
        text::lemma_str_le_antisymmetric(a[0].date@, b[0].date@);
        let ta = a.drop_first();
        let tb = b.drop_first();
        assert forall|i: int, j: int| 0 <= i < j < ta.len() implies str_le(#[trigger] ta[i].date@, #[trigger] ta[j].date@)
            && ta[i].date@ != ta[j].date@ by {
            assert(ta[i] == a[i + 1] && ta[j] == a[j + 1]);
        }
        assert forall|i: int, j: int| 0 <= i < j < tb.len() implies str_le(#[trigger] tb[i].date@, #[trigger] tb[j].date@)
            && tb[i].date@ != tb[j].date@ by {
            assert(tb[i] == b[i + 1] && tb[j] == b[j + 1]);
        }
        assert forall|d: Seq<char>| lists_date(ta, d) <==> lists_date(tb, d) by {
            if lists_date(ta, d) {
                let i = choose|i: int| 0 <= i < ta.len() && (#[trigger] ta[i]).date@ == d;
                assert(a[i + 1].date@ == d);
                assert(lists_date(a, d));
                let j = choose|j: int| 0 <= j < b.len() && (#[trigger] b[j]).date@ == d;
                assert(a[0].date@ != a[i + 1].date@);
                assert(j != 0);
                assert(tb[j - 1] == b[j]);
            }
            if lists_date(tb, d) {
                let i = choose|i: int| 0 <= i < tb.len() && (#[trigger] tb[i]).date@ == d;
                assert(b[i + 1].date@ == d);
                assert(lists_date(b, d));
                let j = choose|j: int| 0 <= j < a.len() && (#[trigger] a[j]).date@ == d;
                assert(b[0].date@ != b[i + 1].date@);
                assert(j != 0);
                assert(ta[j - 1] == a[j]);
            }
        }
        lemma_same_dates_same_places(ta, tb);
        assert forall|i: int| 0 <= i < a.len() implies (#[trigger] a[i]).date@ == b[i].date@ by {
            if i > 0 {
                assert(a[i] == ta[i - 1] && b[i] == tb[i - 1]);
            }
        }
    }
}

/// The activity never depends on the order `git log` prints its lines in:
/// grouped from the same lines in any order, the days come out the same,
/// each with the same count.
pub proof fn activity_ignores_line_order(
    first: Seq<Seq<char>>,
    second: Seq<Seq<char>>,
    a: Seq<DayCount>,
    b: Seq<DayCount>,
)
    requires
        first.to_multiset() == second.to_multiset(),
        groups_days(a, log_dates(first)),
        groups_days(b, log_dates(second)),
    ensures
        log_dates(first).len() == log_dates(second).len(),
        a.len() == b.len(),
        forall|i: int| 0 <= i < a.len() ==> (#[trigger] a[i]).date@ == b[i].date@ && a[i].commits == b[i].commits,
{
    assert forall|d: Seq<char>| occurrences(log_dates(first), d) == occurrences(log_dates(second), d) by {
        lemma_dates_ignore_line_order(first, second, d);
    }
    assert forall|d: Seq<char>| lists_date(a, d) <==> lists_date(b, d) by {
        if lists_date(a, d) {
            let i = choose|i: int| 0 <= i < a.len() && (#[trigger] a[i]).date@ == d;
            assert(occurrences(log_dates(second), d) > 0);
        }
        if lists_date(b, d) {
            let i = choose|i: int| 0 <= i < b.len() && (#[trigger] b[i]).date@ == d;
            assert(occurrences(log_dates(first), d) > 0);
        }
    }
    lemma_same_dates_same_places(a, b);
    lemma_dates_ignore_line_order(first, second, seq![]);
}

/// What [`group_by_day`] reports of `stdout`, as its contract states it.
pub open spec fn grouped(stdout: Seq<char>, window_days: u32, activity: GitActivity) -> bool {
    &&& activity.window_days == window_days
    &&& activity.commits == log_dates(char_lines(stdout)).len()
    &&& groups_days(activity.by_day@, log_dates(char_lines(stdout)))
    &&& day_total(activity.by_day@) == activity.commits
}

/// Reordering the lines of `git log`'s output leaves what
/// [`group_by_day`] reports unchanged: the same commit total and the same
/// days, each with the same count.
pub proof fn group_by_day_ignores_line_order(
    first: Seq<char>,
    second: Seq<char>,
    window_days: u32,
    a: GitActivity,
    b: GitActivity,
)
    requires
        char_lines(first).to_multiset() == char_lines(second).to_multiset(),
        grouped(first, window_days, a),
        grouped(second, window_days, b),
    ensures
        a.window_days == b.window_days,
        a.commits == b.commits,
        a.by_day@.len() == b.by_day@.len(),
        forall|i: int| 0 <= i < a.by_day@.len() ==> (#[trigger] a.by_day@[i]).date@ == b.by_day@[i].date@
            && a.by_day@[i].commits == b.by_day@[i].commits,
{
    activity_ignores_line_order(char_lines(first), char_lines(second), a.by_day@, b.by_day@);
}

proof fn lemma_occurrences_bound(dates: Seq<Seq<char>>, d: Seq<char>)
    ensures
        occurrences(dates, d) <= dates.len(),
    decreases dates.len(),
{
    if dates.len() > 0 {
        lemma_occurrences_bound(dates.drop_last(), d);
    }
}

proof fn lemma_log_dates_len(lines: Seq<Seq<char>>)
    ensures
        log_dates(lines).len() <= lines.len(),
    decreases lines.len(),
{
    if lines.len() > 0 {
        lemma_log_dates_len(lines.drop_last());
    }
}

/// Groups the dates in `git log` output into ascending per-day counts. A
/// date with no commits never appears, so gaps produce no zero row.
pub fn group_by_day(stdout: &str, window_days: u32) -> (activity: GitActivity)
    ensures
        activity.window_days == window_days,
        activity.commits == log_dates(char_lines(stdout@)).len(),
        groups_days(activity.by_day@, log_dates(char_lines(stdout@))),
        day_total(activity.by_day@) == activity.commits,
{
    let chars = text::chars_of(stdout);
    let n = chars.len();
    let ghost all = chars@;
    let ghost dates = log_dates(char_lines(all));
    let mut table: Vec<Tally> = Vec::new();
    let mut commits: usize = 0;
    let ghost mut done: Seq<Seq<char>> = seq![];
    let mut pos: usize = 0;
    assert(all.subrange(0, n as int) =~= all);
    proof {
        assert forall|x: Seq<char>| #[trigger] has_key(table@, x) == (occurrences(done, x) > 0) by {}
    }
    while pos < n
        invariant
            pos <= n == all.len(),
            chars@ == all,
            dates == log_dates(char_lines(all)),
            dates == done + log_dates(char_lines(all.subrange(pos as int, n as int))),
            done.len() <= pos,
            commits == done.len(),
            tally::total_files(table@) == done.len(),
            keys_sorted(table@),
            forall|x: Seq<char>| #[trigger] files_at(table@, x) == occurrences(done, x),
            forall|x: Seq<char>| #[trigger] tally::bytes_at(table@, x) == 0,
            forall|x: Seq<char>| #[trigger] tally::lines_at(table@, x) == 0,
            forall|x: Seq<char>| #[trigger] has_key(table@, x) == (occurrences(done, x) > 0),
        decreases n - pos,
    {
        let (lo, hi, next) = text::next_line(chars.as_slice(), pos, '\n', '\r');
        let ghost line = all.subrange(lo as int, hi as int);
        let ghost rest = all.subrange(next as int, n as int);
        let (a, b) = text::trim_bounds(&chars, lo, hi);
        proof {
            assert(char_lines(all.subrange(pos as int, n as int)) == seq![line] + char_lines(rest));
            lemma_log_dates_concat(seq![line], char_lines(rest));
            assert(seq![line].drop_last() =~= Seq::<Seq<char>>::empty());
            assert(seq![line].last() == line);
            assert(log_dates(Seq::<Seq<char>>::empty()) =~= Seq::<Seq<char>>::empty());
        }
        if a < b {
            let date = text::string_of(&chars, a, b);
            proof {
                assert(date@ == trim(line));
                assert(log_dates(seq![line]) =~= seq![trim(line)]);
                assert(dates =~= done.push(date@) + log_dates(char_lines(rest)));
                lemma_occurrences_bound(done, date@);
            }
            let ghost t_before = table@;
            bump(&mut table, date.as_str(), 0, 0);
            commits += 1;
            proof {
                let d1 = done.push(date@);
                assert(d1.drop_last() =~= done);
                assert forall|x: Seq<char>| #[trigger] files_at(table@, x) == occurrences(d1, x) by {}
                assert forall|x: Seq<char>| #[trigger] has_key(table@, x) == (occurrences(d1, x) > 0) by {
                    assert(has_key(table@, x) == (has_key(t_before, x) || x == date@));
                }
                done = d1;
            }
        } else {
            proof {
                assert(trim(line).len() == 0);
                assert(log_dates(seq![line]) =~= Seq::<Seq<char>>::empty());
                assert(dates =~= done + log_dates(char_lines(rest)));
            }
        }
        pos = next;
    }
    proof {
        assert(all.subrange(n as int, n as int).len() == 0);
        assert(char_lines(all.subrange(n as int, n as int)) =~= Seq::<Seq<char>>::empty());
        assert(dates =~= done);
    }
    let mut by_day: Vec<DayCount> = Vec::new();
    let mut i: usize = 0;
    while i < table.len()
        invariant
            i <= table@.len(),
            keys_sorted(table@),
            by_day@.len() == i,
            forall|j: int| 0 <= j < i ==> (#[trigger] by_day@[j]).date@ == table@[j].key@ && by_day@[j].commits == table@[j].files,
            day_total(by_day@) == tally::total_files(table@.subrange(0, i as int)),
        decreases table.len() - i,
    {
        let ghost before = by_day@;
        by_day.push(DayCount { date: table[i].key.clone(), commits: table[i].files });
        proof {
            assert(by_day@.drop_last() =~= before);
            assert(table@.subrange(0, i + 1).drop_last() =~= table@.subrange(0, i as int));
        }
        i += 1;
    }
    assert(table@.subrange(0, table@.len() as int) =~= table@);
    proof {
        let t = table@;
        assert forall|i: int| 0 <= i < by_day@.len() implies (#[trigger] by_day@[i]).commits == occurrences(dates, by_day@[i].date@)
            && by_day@[i].commits > 0 by {
            tally::lemma_row(t, i);
            assert(has_key(t, t[i].key@));
        }
        assert forall|d: Seq<char>| occurrences(dates, d) > 0 implies exists|i: int| 0 <= i < by_day@.len() && (#[trigger] by_day@[i]).date@ == d by {
            assert(has_key(t, d));
            let k = choose|k: int| 0 <= k < t.len() && #[trigger] t[k].key@ == d;
            assert(by_day@[k].date@ == d);
        }
        assert forall|i: int, j: int| 0 <= i < j < by_day@.len() implies str_le(#[trigger] by_day@[i].date@, #[trigger] by_day@[j].date@)
            && by_day@[i].date@ != by_day@[j].date@ by {
            assert(str_le(t[i].key@, t[j].key@));
        }
    }
    GitActivity { window_days, commits, by_day }
}

/// What the status analysis reports for the output of
/// `git status --porcelain=v1 --ignored=matching`: a failed or unstartable
/// command, then an oversized response, then text that is not UTF-8, each
/// refuses with its own detail; anything else is counted.
pub open spec fn status_analysis_is(output: CommandOutput, result: Analysis<GitStatus>) -> bool {
    if !output.spawned || !output.success {
        result.failed_with(STATUS_FAILED@)
    } else if output.stdout@.len() > STATUS_SIZE_LIMIT {
        result.failed_with(STATUS_TOO_LARGE@)
    } else if !vstd::utf8::valid_utf8(output.stdout@) {
        result.failed_with(INVALID_UTF8@)
    } else {
        result == Analysis::Ran(status_of(output.stdout@))
    }
}

/// `activity` is what grouping the dates of `text` gives for `window_days`.
pub open spec fn activity_of(text: Seq<char>, window_days: u32, activity: GitActivity) -> bool {
    let dates = log_dates(char_lines(text));
    &&& activity.window_days == window_days
    &&& activity.commits == dates.len()
    &&& groups_days(activity.by_day@, dates)
    &&& day_total(activity.by_day@) == activity.commits
}

/// What the activity analysis reports for the output of
/// `git log --date=short --pretty=tformat:%ad`.
pub open spec fn activity_analysis_is(output: CommandOutput, window_days: u32, result: Analysis<GitActivity>) -> bool {
    if !output.spawned || !output.success {
        result.failed_with(LOG_FAILED@)
    } else if !vstd::utf8::valid_utf8(output.stdout@) {
        result.failed_with(INVALID_UTF8@)
    } else {
        result matches Analysis::Ran(a) && activity_of(vstd::utf8::decode_utf8(output.stdout@), window_days, a)
    }
}

/// Counts the status output, refusing an oversized response outright rather
/// than counting a truncated prefix.
pub fn status_analysis(output: &CommandOutput) -> (status: Analysis<GitStatus>)
    ensures
        status_analysis_is(*output, status),
{
    if !output.spawned || !output.success {
        return Analysis::NotEvaluated(NotEvaluated::Failed(STATUS_FAILED.to_owned()));
    }
    if output.stdout.len() > STATUS_SIZE_LIMIT {
        return Analysis::NotEvaluated(NotEvaluated::Failed(STATUS_TOO_LARGE.to_owned()));
    }
    match boundary::string_from_utf8(output.stdout.clone()) {
        Some(stdout) => {
            proof {
                vstd::utf8::decode_utf8_encode_utf8(output.stdout@);
            }
            Analysis::Ran(parse_porcelain(stdout.as_str()))
        },
        None => Analysis::NotEvaluated(NotEvaluated::Failed(INVALID_UTF8.to_owned())),
    }
}

/// Groups the log output into per-day counts over `window_days`.
pub fn activity_analysis(output: &CommandOutput, window_days: u32) -> (activity: Analysis<GitActivity>)
    ensures
        activity_analysis_is(*output, window_days, activity),
{
    if !output.spawned || !output.success {
        return Analysis::NotEvaluated(NotEvaluated::Failed(LOG_FAILED.to_owned()));
    }
    match boundary::string_from_utf8(output.stdout.clone()) {
        Some(stdout) => Analysis::Ran(group_by_day(stdout.as_str(), window_days)),
        None => Analysis::NotEvaluated(NotEvaluated::Failed(INVALID_UTF8.to_owned())),
    }
}

/// The worktree check over a command that may not have been run; one that
/// was not is one that could not be started.
pub open spec fn worktree_of(output: Option<&CommandOutput>) -> WorktreeStatus {
    match output {
        Some(o) => worktree_status_of(*o),
        None => WorktreeStatus::GitUnavailable,
    }
}

/// The `HEAD` check over a command that may not have been run.
pub open spec fn commits_of(output: Option<&CommandOutput>) -> CommitCheck {
    match output {
        Some(o) => commit_check_of(*o),
        None => CommitCheck::CheckFailed,
    }
}

/// The two Git analyses, decided from the output of each `git` command: the
/// worktree check (`rev-parse --is-inside-work-tree`), `status`, the `HEAD`
/// check (`rev-parse --verify HEAD`) and `log`. A command the caller did not
/// run is passed as `None` and counts as one that could not be started; only
/// the commands the decision reaches are read.
///
/// Never fails: every failure becomes a `NotEvaluated` reason, so a directory
/// that is not a Git worktree still produces a full report.
pub fn analyze(
    config: &ScanConfig,
    worktree: Option<&CommandOutput>,
    status: Option<&CommandOutput>,
    head: Option<&CommandOutput>,
    log: Option<&CommandOutput>,
) -> (result: (Analysis<GitStatus>, Analysis<GitActivity>))
    ensures
        !config.read_git ==> result.0.is_disabled() && result.1.is_disabled(),
        config.read_git && worktree_of(worktree) is GitUnavailable ==> result.0.unavailable_with(GIT_UNAVAILABLE@)
            && result.1.unavailable_with(GIT_UNAVAILABLE@),
        config.read_git && worktree_of(worktree) is NotAWorktree ==> result.0.unavailable_with(NOT_A_WORKTREE@)
            && result.1.unavailable_with(NOT_A_WORKTREE@),
        config.read_git && worktree_of(worktree) is Worktree ==> {
            &&& match status {
                Some(o) => status_analysis_is(*o, result.0),
                None => result.0.failed_with(STATUS_FAILED@),
            }
            &&& match commits_of(head) {
                CommitCheck::HasCommits => match log {
                    Some(o) => activity_analysis_is(*o, config.activity_window_days, result.1),
                    None => result.1.failed_with(LOG_FAILED@),
                },
                CommitCheck::NoCommits => result.1.unavailable_with(NO_COMMITS@),
                CommitCheck::CheckFailed => result.1.failed_with(HEAD_CHECK_FAILED@),
            }
        },
{
    if !config.read_git {
        return (Analysis::NotEvaluated(NotEvaluated::Disabled), Analysis::NotEvaluated(NotEvaluated::Disabled));
    }
    let found = match worktree {
        Some(o) => worktree_status(o),
        None => WorktreeStatus::GitUnavailable,
    };
    match found {
        WorktreeStatus::GitUnavailable => (
            Analysis::NotEvaluated(NotEvaluated::InputUnavailable(GIT_UNAVAILABLE.to_owned())),
            Analysis::NotEvaluated(NotEvaluated::InputUnavailable(GIT_UNAVAILABLE.to_owned())),
        ),
        WorktreeStatus::NotAWorktree => (
            Analysis::NotEvaluated(NotEvaluated::InputUnavailable(NOT_A_WORKTREE.to_owned())),
            Analysis::NotEvaluated(NotEvaluated::InputUnavailable(NOT_A_WORKTREE.to_owned())),
        ),
        WorktreeStatus::Worktree => {
            let counted = match status {
                Some(o) => status_analysis(o),
                None => Analysis::NotEvaluated(NotEvaluated::Failed(STATUS_FAILED.to_owned())),
            };
            let check = match head {
                Some(o) => commit_check(o),
                None => CommitCheck::CheckFailed,
            };
            let activity = match check {
                CommitCheck::HasCommits => match log {
                    Some(o) => activity_analysis(o, config.activity_window_days),
                    None => Analysis::NotEvaluated(NotEvaluated::Failed(LOG_FAILED.to_owned())),
                },
                CommitCheck::NoCommits => Analysis::NotEvaluated(NotEvaluated::InputUnavailable(NO_COMMITS.to_owned())),
                CommitCheck::CheckFailed => Analysis::NotEvaluated(NotEvaluated::Failed(HEAD_CHECK_FAILED.to_owned())),
            };
            (counted, activity)
        },
    }
}

} // verus!
