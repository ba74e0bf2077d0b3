//! Repo Radar's scan engine and reporting model.
//!
//! The library reads nothing and writes nothing itself: the program around
//! it walks the repository, runs `git`, and reads manifests, and hands the
//! library plain values. Everything the library decides from those values,
//! it decides here, under a contract.
use vstd::prelude::*;

pub mod analysis;
pub mod cli;
mod boundary;
pub mod document;

pub mod languages;
pub mod render;

pub mod scan;
pub mod sort;
pub mod text;

pub use analysis::cargo::{
    CargoDependency, CargoLock, CargoManifest, DependencyKind, DependencySource,
};
pub use analysis::git::{DayCount, GitActivity, GitStatus};
pub use languages::LANGUAGE_TABLE_VERSION;
pub use scan::scan;


verus! {

/// What a scan does and does not look at.
#[derive(Debug, Clone, PartialEq, Eq)]
pub struct ScanConfig {
    /// Directory names — not paths — skipped entirely during traversal.
    /// The default set is `.git`, `target`, and `node_modules`.
    pub ignored_directories: Vec<String>,
    /// Read file contents to count lines. Defaults to true.
    pub count_lines: bool,
    /// Run the Git analyses. Defaults to true.
    pub read_git: bool,
    /// Days back the activity window covers. Defaults to 30.
    pub activity_window_days: u32,
    /// Read Cargo manifests. Defaults to true.
    pub read_cargo: bool,
    /// Look for the project's stated purpose. Defaults to true.
    pub read_profile: bool,
}

impl ScanConfig {
    /// The ignored directory names, as character sequences.
    pub open spec fn ignored(&self) -> Seq<Seq<char>> {
        self.ignored_directories@.map_values(|name: String| name@)
    }
}

impl Default for ScanConfig {
    fn default() -> (config: Self)
        ensures
            config.ignored() == seq![".git"@, "target"@, "node_modules"@],
            config.count_lines,
            config.read_git,
            config.activity_window_days == 30,
            config.read_cargo,
            config.read_profile,
    {
        let mut ignored_directories: Vec<String> = Vec::new();
        ignored_directories.push(".git".to_owned());
        ignored_directories.push("target".to_owned());
        ignored_directories.push("node_modules".to_owned());
        let config = ScanConfig {
            ignored_directories,
            count_lines: true,
            read_git: true,
            activity_window_days: 30,
            read_cargo: true,
            read_profile: true,
        };
        assert(config.ignored() =~= seq![".git"@, "target"@, "node_modules"@]);
        config
    }
}

/// The result of an analysis that may not have been able to run.
///
/// An analysis which did not run reports why, rather than a plausible
/// default: there is no zero to reach for, because there is no `T`.
#[derive(Debug, Clone, PartialEq, Eq)]
pub enum Analysis<T> {
    /// The analysis ran and produced this result.
    Ran(T),
    /// The analysis did not run, for the stated reason.
    NotEvaluated(NotEvaluated),
}

/// Why an analysis did not run.
#[derive(Debug, Clone, PartialEq, Eq)]
pub enum NotEvaluated {
    /// Switched off for this invocation, e.g. `--no-lines`.
    Disabled,
    /// The input does not exist here, e.g. not a Git worktree.
    InputUnavailable(String),
    /// Recognized but not implemented.
    Unsupported(String),
    /// The input existed and could not be understood.
    Failed(String),
}

impl<T> Default for Analysis<T> {
    fn default() -> (analysis: Self)
        ensures
            analysis == Analysis::<T>::NotEvaluated(NotEvaluated::Disabled),
    {
        Analysis::NotEvaluated(NotEvaluated::Disabled)
    }
}

impl<T> Analysis<T> {
    /// Switched off for this invocation.
    pub open spec fn is_disabled(self) -> bool {
        self matches Analysis::NotEvaluated(NotEvaluated::Disabled)
    }

    /// Not run because its input does not exist here, as `detail` says.
    pub open spec fn unavailable_with(self, detail: Seq<char>) -> bool {
        self matches Analysis::NotEvaluated(NotEvaluated::InputUnavailable(d)) && d@ == detail
    }

    /// Not run because its input could not be understood, as `detail` says.
    pub open spec fn failed_with(self, detail: Seq<char>) -> bool {
        self matches Analysis::NotEvaluated(NotEvaluated::Failed(d)) && d@ == detail
    }

    /// The result, or `None` if the analysis did not run.
    pub fn ran(&self) -> (result: Option<&T>)
        ensures
            match self {
                Analysis::Ran(value) => result == Some(value),
                Analysis::NotEvaluated(_) => result is None,
            },
    {
        match self {
            Analysis::Ran(value) => Some(value),
            Analysis::NotEvaluated(_) => None,
        }
    }
}

impl NotEvaluated {
    /// The stable wire token for this reason.
    pub open spec fn reason_token(self) -> Seq<char> {
        match self {
            NotEvaluated::Disabled => "disabled"@,
            NotEvaluated::InputUnavailable(_) => "input_unavailable"@,
            NotEvaluated::Unsupported(_) => "unsupported"@,
            NotEvaluated::Failed(_) => "failed"@,
        }
    }

    /// The input the reason names, when it names one.
    pub open spec fn detail_text(self) -> Option<Seq<char>> {
        match self {
            NotEvaluated::Disabled => None,
            NotEvaluated::InputUnavailable(detail) => Some(detail@),
            NotEvaluated::Unsupported(detail) => Some(detail@),
            NotEvaluated::Failed(detail) => Some(detail@),
        }
    }

    /// The stable wire token for this reason: `disabled`,
    /// `input_unavailable`, `unsupported`, or `failed`.
    pub fn reason(&self) -> (token: &'static str)
        ensures
            token@ == self.reason_token(),
    {
        match self {
            NotEvaluated::Disabled => {
                proof {
                    reveal_strlit("disabled");
                }
                "disabled"
            },
            NotEvaluated::InputUnavailable(_) => {
                proof {
                    reveal_strlit("input_unavailable");
                }
                "input_unavailable"
            },
            NotEvaluated::Unsupported(_) => {
                proof {
                    reveal_strlit("unsupported");
                }
                "unsupported"
            },
            NotEvaluated::Failed(_) => {
                proof {
                    reveal_strlit("failed");
                }
                "failed"
            },
        }
    }

    /// The specific input this reason names, when it names one.
    /// `Disabled` carries none.
    pub fn detail(&self) -> (detail: Option<&str>)
        ensures
            match self.detail_text() {
                Some(text) => detail is Some && detail->0@ == text,
                None => detail is None,
            },
    {
        match self {
            NotEvaluated::Disabled => None,
            NotEvaluated::InputUnavailable(detail) => Some(detail.as_str()),
            NotEvaluated::Unsupported(detail) => Some(detail.as_str()),
            NotEvaluated::Failed(detail) => Some(detail.as_str()),
        }
    }
}

/// Every reason token differs from every other.
pub proof fn reason_tokens_are_distinct(a: NotEvaluated, b: NotEvaluated)
    requires
        a.reason_token() == b.reason_token(),
    ensures
        a is Disabled <==> b is Disabled,
        a is InputUnavailable <==> b is InputUnavailable,
        a is Unsupported <==> b is Unsupported,
        a is Failed <==> b is Failed,
{
    reveal_strlit("disabled");
    reveal_strlit("input_unavailable");
    reveal_strlit("unsupported");
    reveal_strlit("failed");
    assert("disabled"@.len() == 8);
    assert("input_unavailable"@.len() == 17);
    assert("unsupported"@.len() == 11);
    assert("failed"@.len() == 6);
}

/// A single counted file: its repository-relative path and size.
#[derive(Debug, Clone, PartialEq, Eq)]
pub struct FileEntry {
    /// Repository-relative, components separated by `/`.
    pub path: String,
    /// File size in bytes, as reported by `stat`.
    pub bytes: u64,
}

/// Aggregate totals for one language, as determined by file extension.
#[derive(Debug, Clone, PartialEq, Eq)]
pub struct LanguageStat {
    /// The language name, or `[no extension]` / `[unrecognized]` for files
    /// the extension table does not map.
    pub language: String,
    /// File count contributing to this language.
    pub files: usize,
    /// Byte total across those files.
    pub bytes: u64,
    /// Zero when line counting was disabled or the files were binary.
    pub lines: u64,
}

/// Aggregate totals for one directory, including every descendant.
#[derive(Debug, Clone, PartialEq, Eq)]
pub struct DirectoryEntry {
    /// Repository-relative. Never the root in a finished report.
    pub path: String,
    /// Aggregate over the directory and all its descendants.
    pub files: usize,
    /// Aggregate over the directory and all its descendants.
    pub bytes: u64,
}

/// How many counted files carry one (lower-cased) extension.
#[derive(Debug, Clone, PartialEq, Eq)]
pub struct ExtensionCount {
    /// The lower-cased extension, or `[no extension]`.
    pub extension: String,
    /// Files with that extension.
    pub files: usize,
}

/// Line counting results.
#[derive(Debug, Clone, PartialEq, Eq)]
pub struct LineCounts {
    /// Total lines across all text files.
    pub lines: u64,
    /// Files read as text.
    pub text_files: usize,
    /// Files skipped as binary by the NUL-byte heuristic.
    pub binary_files: usize,
    /// Files that stat succeeded on but could not be opened.
    pub unreadable_files: usize,
}

impl Default for LineCounts {
    fn default() -> (counts: Self)
        ensures
            counts == (LineCounts { lines: 0, text_files: 0, binary_files: 0, unreadable_files: 0 }),
    {
        LineCounts { lines: 0, text_files: 0, binary_files: 0, unreadable_files: 0 }
    }
}

/// A non-fatal problem encountered while scanning.
#[derive(Debug, Clone, PartialEq, Eq)]
pub struct ScanWarning {
    /// The path the problem occurred on.
    pub path: String,
    /// The underlying error, as text.
    pub message: String,
}

/// The full result of a scan.
#[derive(Debug, PartialEq, Eq)]
pub struct ScanReport {
    /// Total files counted.
    pub files: usize,
    /// Total bytes across all counted files.
    pub bytes: u64,
    /// File count by extension, lower-cased, in ascending extension order.
    pub by_extension: Vec<ExtensionCount>,
    /// Aggregate totals by language, sorted by bytes descending.
    pub by_language: Vec<LanguageStat>,
    /// The largest files, sorted by bytes descending.
    pub largest_files: Vec<FileEntry>,
    /// The largest directories by aggregate bytes descending, root excluded.
    pub largest_directories: Vec<DirectoryEntry>,
    /// Line-counting results, or why they were not produced.
    pub lines: Analysis<LineCounts>,
    /// Git status counts, or why they were not produced.
    pub git_status: Analysis<GitStatus>,
    /// Recent commit activity, or why it was not produced.
    pub git_activity: Analysis<GitActivity>,
    /// What `Cargo.toml` declares, or why it was not read.
    pub cargo_manifest: Analysis<CargoManifest>,
    /// What `Cargo.lock` resolved to, or why it was not read.
    pub cargo_lock: Analysis<CargoLock>,
    /// Non-fatal problems encountered while scanning.
    pub warnings: Vec<ScanWarning>,
}

impl Default for ScanReport {
    fn default() -> (report: Self)
        ensures
            report.files == 0,
            report.bytes == 0,
            report.by_extension@.len() == 0,
            report.by_language@.len() == 0,
            report.largest_files@.len() == 0,
            report.largest_directories@.len() == 0,
            report.lines == Analysis::<LineCounts>::NotEvaluated(NotEvaluated::Disabled),
            report.git_status == Analysis::<GitStatus>::NotEvaluated(NotEvaluated::Disabled),
            report.git_activity == Analysis::<GitActivity>::NotEvaluated(NotEvaluated::Disabled),
            report.cargo_manifest == Analysis::<CargoManifest>::NotEvaluated(NotEvaluated::Disabled),
            report.cargo_lock == Analysis::<CargoLock>::NotEvaluated(NotEvaluated::Disabled),
            report.warnings@.len() == 0,
    {
        ScanReport {
            files: 0,
            bytes: 0,
            by_extension: Vec::new(),
            by_language: Vec::new(),
            largest_files: Vec::new(),
            largest_directories: Vec::new(),
            lines: Analysis::NotEvaluated(NotEvaluated::Disabled),
            git_status: Analysis::NotEvaluated(NotEvaluated::Disabled),
            git_activity: Analysis::NotEvaluated(NotEvaluated::Disabled),
            cargo_manifest: Analysis::NotEvaluated(NotEvaluated::Disabled),
            cargo_lock: Analysis::NotEvaluated(NotEvaluated::Disabled),
            warnings: Vec::new(),
        }
    }
}

impl ScanReport {
    /// Files counted with `extension`, if any were.
    pub fn extension_count(&self, extension: &str) -> (count: Option<usize>)
        ensures
            match count {
                Some(n) => exists|i: int|
                    0 <= i < self.by_extension@.len() && #[trigger] self.by_extension@[i].extension@
                        == extension@ && self.by_extension@[i].files == n,
                None => forall|i: int|
                    0 <= i < self.by_extension@.len() ==> #[trigger] self.by_extension@[i].extension@
                        != extension@,
            },
    {
        let mut i: usize = 0;
        while i < self.by_extension.len()
            invariant
                i <= self.by_extension@.len(),
                forall|j: int| 0 <= j < i ==> #[trigger] self.by_extension@[j].extension@ != extension@,
            decreases self.by_extension.len() - i,
        {
            if text::str_eq(self.by_extension[i].extension.as_str(), extension) {
                return Some(self.by_extension[i].files);
            }
            i += 1;
        }
        None
    }

    /// Keeps at most `top` entries of the largest-files and
    /// largest-directories lists, the largest ones; the rest of the report
    /// is unchanged.
    pub fn keep_top(&mut self, top: usize)
        ensures
            final(self).largest_files@ == if top < old(self).largest_files@.len() {
                old(self).largest_files@.subrange(0, top as int)
            } else {
                old(self).largest_files@
            },
            final(self).largest_directories@ == if top < old(self).largest_directories@.len() {
                old(self).largest_directories@.subrange(0, top as int)
            } else {
                old(self).largest_directories@
            },
            final(self).largest_files@.len() <= top,
            final(self).largest_directories@.len() <= top,
            final(self).files == old(self).files,
            final(self).bytes == old(self).bytes,
            final(self).by_extension == old(self).by_extension,
            final(self).by_language == old(self).by_language,
            final(self).lines == old(self).lines,
            final(self).warnings == old(self).warnings,
            final(self).git_status == old(self).git_status,
            final(self).git_activity == old(self).git_activity,
            final(self).cargo_manifest == old(self).cargo_manifest,
            final(self).cargo_lock == old(self).cargo_lock,
    {
        self.largest_files.truncate(top);
        self.largest_directories.truncate(top);
    }
}

/// A character a terminal would act on rather than print: the C0 controls,
/// `DEL`, and the C1 range. Tab, newline and carriage return are among them.
pub open spec fn is_terminal_control(c: char) -> bool {
    c <= '\u{1f}' || ('\u{7f}' <= c && c <= '\u{9f}')
}

/// `text` with every terminal control replaced by U+FFFD.
pub open spec fn sanitized(text: Seq<char>) -> Seq<char> {
    text.map_values(|c: char| if is_terminal_control(c) { '\u{fffd}' } else { c })
}

/// Replaces characters that a terminal would interpret as commands.
///
/// C0 controls, `DEL`, and the C1 range are replaced with U+FFFD so the
/// presence of the character stays visible. Tab and newline are also replaced,
/// because a name containing either can fake a column or an entire row.
pub fn sanitize_for_terminal(text: &str) -> (clean: String)
    ensures
        clean@ == sanitized(text@),
{
    let chars = text::chars_of(text);
    let mut clean = String::new();
    let mut i: usize = 0;
    while i < chars.len()
        invariant
            i <= chars@.len(),
            chars@ == text@,
            clean@ == sanitized(chars@.subrange(0, i as int)),
        decreases chars.len() - i,
    {
        let c = chars[i];
        if c <= '\u{1f}' || ('\u{7f}' <= c && c <= '\u{9f}') {
            clean.push('\u{fffd}');
        } else {
            clean.push(c);
        }
        i += 1;
        assert(clean@ =~= sanitized(chars@.subrange(0, i as int)));
    }
    assert(chars@.subrange(0, chars@.len() as int) =~= chars@);
    clean
}

/// Renders a path for terminal display with control characters neutralized.
/// The caller converts a path that is not UTF-8 lossily before handing it here.
pub fn display_path(path: &str) -> (shown: String)
    ensures
        shown@ == sanitized(path@),
{
    sanitize_for_terminal(path)
}

/// Sanitizing keeps the length of a text and leaves no terminal control in it.
pub proof fn sanitizing_removes_every_control(text: Seq<char>)
    ensures
        sanitized(text).len() == text.len(),
        forall|i: int| 0 <= i < text.len() ==> !is_terminal_control(#[trigger] sanitized(text)[i]),
        forall|i: int| 0 <= i < text.len() && !is_terminal_control(text[i]) ==> #[trigger] sanitized(text)[i] == text[i],
{
}

/// Sanitizing twice is sanitizing once.
pub proof fn sanitizing_is_idempotent(text: Seq<char>)
    ensures
        sanitized(sanitized(text)) == sanitized(text),
{
    assert(sanitized(sanitized(text)) =~= sanitized(text));
}

} // verus!
