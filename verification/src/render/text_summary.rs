//! The human-readable summary printed by default.
//!
//! Line counting and both Git analyses may not have run: their rows then say
//! so, naming the reason for Git, rather than printing a zero. Every name
//! drawn from the repository passes through the terminal sanitizer first.
use vstd::prelude::*;

use crate::render::{bytes_text, format_bytes};
use crate::is_terminal_control;
use crate::text::{self, decimal};
use crate::{
    display_path, sanitize_for_terminal, sanitized, Analysis, DirectoryEntry, ExtensionCount, FileEntry,
    LanguageStat, NotEvaluated, ScanReport,
};

verus! {

/// `n` spaces.
pub open spec fn spaces(n: nat) -> Seq<char> {
    Seq::new(n, |i: int| ' ')
}

/// `s` left-aligned in a field `width` characters wide: `{:<width}`.
pub open spec fn pad_end(s: Seq<char>, width: nat) -> Seq<char> {
    if s.len() >= width {
        s
    } else {
        s + spaces((width - s.len()) as nat)
    }
}

/// `s` right-aligned in a field `width` characters wide: `{:>width}`.
pub open spec fn pad_start(s: Seq<char>, width: nat) -> Seq<char> {
    if s.len() >= width {
        s
    } else {
        spaces((width - s.len()) as nat) + s
    }
}

fn push_spaces(out: &mut String, n: usize)
    ensures
        final(out)@ == old(out)@ + spaces(n as nat),
{
    let mut i: usize = 0;
    while i < n
        invariant
            i <= n,
            out@ == old(out)@ + spaces(i as nat),
        decreases n - i,
    {
        out.push(' ');
        i += 1;
        assert(out@ =~= old(out)@ + spaces(i as nat));
    }
}

fn push_padded_end(out: &mut String, s: &str, width: usize)
    ensures
        final(out)@ == old(out)@ + pad_end(s@, width as nat),
{
    let count = text::chars_of(s).len();
    text::push_str(out, s);
    if count < width {
        push_spaces(out, width - count);
    }
    assert(final(out)@ =~= old(out)@ + pad_end(s@, width as nat));
}

fn push_padded_start(out: &mut String, s: &str, width: usize)
    ensures
        final(out)@ == old(out)@ + pad_start(s@, width as nat),
{
    let count = text::chars_of(s).len();
    if count < width {
        push_spaces(out, width - count);
    }
    text::push_str(out, s);
    assert(final(out)@ =~= old(out)@ + pad_start(s@, width as nat));
}

/// A short reason for an analysis that did not run: the detail it names,
/// else its wire token.
pub open spec fn reason_text(reason: NotEvaluated) -> Seq<char> {
    match reason.detail_text() {
        Some(detail) => detail,
        None => reason.reason_token(),
    }
}

/// A short, human-readable reason for a `NotEvaluated` result: the detail,
/// which is more specific than the wire token, when there is one. Every
/// detail is tool-authored, never repository content.
pub fn not_evaluated_text(reason: &NotEvaluated) -> (shown: &str)
    ensures
        shown@ == reason_text(*reason),
{
    match reason.detail() {
        Some(detail) => detail,
        None => reason.reason(),
    }
}

pub open spec fn lines_row(report: ScanReport) -> Seq<char> {
    "Lines:      "@ + match report.lines {
        Analysis::Ran(counts) => decimal(counts.lines as nat),
        Analysis::NotEvaluated(_) => "not evaluated"@,
    } + "\n"@
}

pub open spec fn status_row(report: ScanReport) -> Seq<char> {
    "  Status:   "@ + match report.git_status {
        Analysis::Ran(s) => decimal(s.modified as nat) + " modified, "@ + decimal(s.staged as nat) + " staged, "@
            + decimal(s.untracked as nat) + " untracked, "@ + decimal(s.ignored as nat) + " ignored"@,
        Analysis::NotEvaluated(reason) => "not evaluated ("@ + reason_text(reason) + ")"@,
    } + "\n"@
}

pub open spec fn activity_row(report: ScanReport) -> Seq<char> {
    "  Activity: "@ + match report.git_activity {
        Analysis::Ran(a) => decimal(a.commits as nat) + " commits in the last "@ + decimal(a.window_days as nat)
            + " days"@,
        Analysis::NotEvaluated(reason) => "not evaluated ("@ + reason_text(reason) + ")"@,
    } + "\n"@
}

/// One language row; the lines column only when lines were counted.
pub open spec fn language_row(language: LanguageStat, with_lines: bool) -> Seq<char> {
    "  "@ + pad_end(sanitized(language.language@), 16) + " "@ + pad_start(decimal(language.files as nat), 3)
        + " files "@ + pad_start(bytes_text(language.bytes as nat), 10) + if with_lines {
        "  "@ + pad_start(decimal(language.lines as nat), 10) + " lines"@
    } else {
        seq![]
    } + "\n"@
}

pub open spec fn language_rows(languages: Seq<LanguageStat>, with_lines: bool) -> Seq<char>
    decreases languages.len(),
{
    if languages.len() == 0 {
        seq![]
    } else {
        language_rows(languages.drop_last(), with_lines) + language_row(languages.last(), with_lines)
    }
}

pub open spec fn extension_rows(extensions: Seq<ExtensionCount>) -> Seq<char>
    decreases extensions.len(),
{
    if extensions.len() == 0 {
        seq![]
    } else {
        extension_rows(extensions.drop_last()) + "  "@ + pad_end(sanitized(extensions.last().extension@), 16) + " "@
            + decimal(extensions.last().files as nat) + "\n"@
    }
}

/// A size and a path, the size right-aligned.
pub open spec fn size_row(bytes: u64, path: Seq<char>) -> Seq<char> {
    "  "@ + pad_start(bytes_text(bytes as nat), 10) + "  "@ + sanitized(path) + "\n"@
}

pub open spec fn file_rows(files: Seq<FileEntry>) -> Seq<char>
    decreases files.len(),
{
    if files.len() == 0 {
        seq![]
    } else {
        file_rows(files.drop_last()) + size_row(files.last().bytes, files.last().path@)
    }
}

pub open spec fn directory_rows(directories: Seq<DirectoryEntry>) -> Seq<char>
    decreases directories.len(),
{
    if directories.len() == 0 {
        seq![]
    } else {
        directory_rows(directories.drop_last()) + size_row(directories.last().bytes, directories.last().path@)
    }
}

/// The totals at the head of the summary.
#[verifier::opaque]
pub open spec fn totals_text(root: Seq<char>, report: ScanReport) -> Seq<char> {
    "Repository: "@ + sanitized(root) + "\n"@ + "Files:      "@ + decimal(report.files as nat) + "\n"@
        + "Size:       "@ + bytes_text(report.bytes as nat) + "\n"@ + lines_row(report)
}

#[verifier::opaque]
pub open spec fn git_section(report: ScanReport) -> Seq<char> {
    "\nGit:\n"@ + status_row(report) + activity_row(report)
}

#[verifier::opaque]
pub open spec fn languages_section(report: ScanReport) -> Seq<char> {
    "\nLanguages:\n"@ + language_rows(report.by_language@, report.lines is Ran)
}

#[verifier::opaque]
pub open spec fn extensions_section(report: ScanReport) -> Seq<char> {
    "\nExtensions:\n"@ + extension_rows(report.by_extension@)
}

#[verifier::opaque]
pub open spec fn files_section(report: ScanReport) -> Seq<char> {
    "\nLargest files:\n"@ + file_rows(report.largest_files@)
}

#[verifier::opaque]
pub open spec fn directories_section(report: ScanReport) -> Seq<char> {
    "\nLargest directories (aggregate, including subdirectories):\n"@ + directory_rows(report.largest_directories@)
}

/// The whole summary of `report` for the repository at `root`: its totals,
/// then its Git, language, extension, largest-file and largest-directory
/// sections.
pub open spec fn summary_text(root: Seq<char>, report: ScanReport) -> Seq<char> {
    totals_text(root, report) + git_section(report) + languages_section(report) + extensions_section(report)
        + files_section(report) + directories_section(report)
}

fn push_line(out: &mut String, label: &str, value: &str)
    ensures
        final(out)@ == old(out)@ + label@ + value@ + "\n"@,
{
    text::push_str(out, label);
    text::push_str(out, value);
    text::push_str(out, "\n");
}

fn push_reason(out: &mut String, reason: &NotEvaluated)
    ensures
        final(out)@ == old(out)@ + "not evaluated ("@ + reason_text(*reason) + ")"@,
{
    text::push_str(out, "not evaluated (");
    text::push_str(out, not_evaluated_text(reason));
    text::push_str(out, ")");
}

fn push_git_rows(out: &mut String, report: &ScanReport)
    ensures
        final(out)@ == old(out)@ + status_row(*report) + activity_row(*report),
{
    text::push_str(out, "  Status:   ");
    match &report.git_status {
        Analysis::Ran(s) => {
            text::push_decimal(out, s.modified as u128);
            text::push_str(out, " modified, ");
            text::push_decimal(out, s.staged as u128);
            text::push_str(out, " staged, ");
            text::push_decimal(out, s.untracked as u128);
            text::push_str(out, " untracked, ");
            text::push_decimal(out, s.ignored as u128);
            text::push_str(out, " ignored");
        },
        Analysis::NotEvaluated(reason) => push_reason(out, reason),
    }
    text::push_str(out, "\n");
    let ghost middle = out@;
    assert(middle =~= old(out)@ + status_row(*report));
    text::push_str(out, "  Activity: ");
    match &report.git_activity {
        Analysis::Ran(a) => {
            text::push_decimal(out, a.commits as u128);
            text::push_str(out, " commits in the last ");
            text::push_decimal(out, a.window_days as u128);
            text::push_str(out, " days");
        },
        Analysis::NotEvaluated(reason) => push_reason(out, reason),
    }
    text::push_str(out, "\n");
    assert(out@ =~= middle + activity_row(*report));
}

fn push_language_row(out: &mut String, language: &LanguageStat, with_lines: bool)
    ensures
        final(out)@ == old(out)@ + language_row(*language, with_lines),
{
    text::push_str(out, "  ");
    push_padded_end(out, sanitize_for_terminal(language.language.as_str()).as_str(), 16);
    text::push_str(out, " ");
    push_padded_start(out, text::decimal_string(language.files as u128).as_str(), 3);
    text::push_str(out, " files ");
    push_padded_start(out, format_bytes(language.bytes).as_str(), 10);
    if with_lines {
        text::push_str(out, "  ");
        push_padded_start(out, text::decimal_string(language.lines as u128).as_str(), 10);
        text::push_str(out, " lines");
    }
    text::push_str(out, "\n");
    assert(out@ =~= old(out)@ + language_row(*language, with_lines));
}

fn push_language_rows(out: &mut String, languages: &Vec<LanguageStat>, with_lines: bool)
    ensures
        final(out)@ == old(out)@ + language_rows(languages@, with_lines),
{
    let mut i: usize = 0;
    while i < languages.len()
        invariant
            i <= languages@.len(),
            out@ == old(out)@ + language_rows(languages@.subrange(0, i as int), with_lines),
        decreases languages.len() - i,
    {
        push_language_row(out, &languages[i], with_lines);
        proof {
            let done = languages@.subrange(0, i + 1);
            assert(done.drop_last() =~= languages@.subrange(0, i as int));
            assert(out@ =~= old(out)@ + language_rows(done, with_lines));
        }
        i += 1;
    }
    assert(languages@.subrange(0, languages@.len() as int) =~= languages@);
}

fn push_extension_rows(out: &mut String, extensions: &Vec<ExtensionCount>)
    ensures
        final(out)@ == old(out)@ + extension_rows(extensions@),
{
    let mut i: usize = 0;
    while i < extensions.len()
        invariant
            i <= extensions@.len(),
            out@ == old(out)@ + extension_rows(extensions@.subrange(0, i as int)),
        decreases extensions.len() - i,
    {
        text::push_str(out, "  ");
        push_padded_end(out, sanitize_for_terminal(extensions[i].extension.as_str()).as_str(), 16);
        text::push_str(out, " ");
        text::push_decimal(out, extensions[i].files as u128);
        text::push_str(out, "\n");
        proof {
            let done = extensions@.subrange(0, i + 1);
            assert(done.drop_last() =~= extensions@.subrange(0, i as int));
            assert(out@ =~= old(out)@ + extension_rows(done));
        }
        i += 1;
    }
    assert(extensions@.subrange(0, extensions@.len() as int) =~= extensions@);
}

fn push_size_row(out: &mut String, bytes: u64, path: &str)
    ensures
        final(out)@ == old(out)@ + size_row(bytes, path@),
{
    text::push_str(out, "  ");
    push_padded_start(out, format_bytes(bytes).as_str(), 10);
    text::push_str(out, "  ");
    text::push_str(out, display_path(path).as_str());
    text::push_str(out, "\n");
    assert(final(out)@ =~= old(out)@ + size_row(bytes, path@));
}

fn push_file_rows(out: &mut String, files: &Vec<FileEntry>)
    ensures
        final(out)@ == old(out)@ + file_rows(files@),
{
    let mut i: usize = 0;
    while i < files.len()
        invariant
            i <= files@.len(),
            out@ == old(out)@ + file_rows(files@.subrange(0, i as int)),
        decreases files.len() - i,
    {
        push_size_row(out, files[i].bytes, files[i].path.as_str());
        proof {
            let done = files@.subrange(0, i + 1);
            assert(done.drop_last() =~= files@.subrange(0, i as int));
            assert(out@ =~= old(out)@ + file_rows(done));
        }
        i += 1;
    }
    assert(files@.subrange(0, files@.len() as int) =~= files@);
}

fn push_directory_rows(out: &mut String, directories: &Vec<DirectoryEntry>)
    ensures
        final(out)@ == old(out)@ + directory_rows(directories@),
{
    let mut i: usize = 0;
    while i < directories.len()
        invariant
            i <= directories@.len(),
            out@ == old(out)@ + directory_rows(directories@.subrange(0, i as int)),
        decreases directories.len() - i,
    {
        push_size_row(out, directories[i].bytes, directories[i].path.as_str());
        proof {
            let done = directories@.subrange(0, i + 1);
            assert(done.drop_last() =~= directories@.subrange(0, i as int));
            assert(out@ =~= old(out)@ + directory_rows(done));
        }
        i += 1;
    }
    assert(directories@.subrange(0, directories@.len() as int) =~= directories@);
}

fn push_totals(out: &mut String, root: &str, report: &ScanReport)
    ensures
        final(out)@ == old(out)@ + totals_text(root@, *report),
{
    push_line(out, "Repository: ", display_path(root).as_str());
    push_line(out, "Files:      ", text::decimal_string(report.files as u128).as_str());
    push_line(out, "Size:       ", format_bytes(report.bytes).as_str());
    match report.lines.ran() {
        Some(counts) => push_line(out, "Lines:      ", text::decimal_string(counts.lines as u128).as_str()),
        None => push_line(out, "Lines:      ", "not evaluated"),
    }
    assert(final(out)@ =~= old(out)@ + totals_text(root@, *report)) by {
        reveal(totals_text);
    }
}

fn push_git_section(out: &mut String, report: &ScanReport)
    ensures
        final(out)@ == old(out)@ + git_section(*report),
{
    text::push_str(out, "\nGit:\n");
    push_git_rows(out, report);
    assert(final(out)@ =~= old(out)@ + git_section(*report)) by {
        reveal(git_section);
    }
}

fn push_languages_section(out: &mut String, report: &ScanReport)
    ensures
        final(out)@ == old(out)@ + languages_section(*report),
{
    text::push_str(out, "\nLanguages:\n");
    push_language_rows(out, &report.by_language, report.lines.ran().is_some());
    assert(final(out)@ =~= old(out)@ + languages_section(*report)) by {
        reveal(languages_section);
    }
}

fn push_extensions_section(out: &mut String, report: &ScanReport)
    ensures
        final(out)@ == old(out)@ + extensions_section(*report),
{
    text::push_str(out, "\nExtensions:\n");
    push_extension_rows(out, &report.by_extension);
    assert(final(out)@ =~= old(out)@ + extensions_section(*report)) by {
        reveal(extensions_section);
    }
}

fn push_files_section(out: &mut String, report: &ScanReport)
    ensures
        final(out)@ == old(out)@ + files_section(*report),
{
    text::push_str(out, "\nLargest files:\n");
    push_file_rows(out, &report.largest_files);
    assert(final(out)@ =~= old(out)@ + files_section(*report)) by {
        reveal(files_section);
    }
}

fn push_directories_section(out: &mut String, report: &ScanReport)
    ensures
        final(out)@ == old(out)@ + directories_section(*report),
{
    text::push_str(out, "\nLargest directories (aggregate, including subdirectories):\n");
    push_directory_rows(out, &report.largest_directories);
    assert(final(out)@ =~= old(out)@ + directories_section(*report)) by {
        reveal(directories_section);
    }
}

/// Writes the default human-readable summary of `report` for the repository
/// at `root`: totals, Git status and activity, languages, extensions, and the
/// largest files and directories. Writing to a `String` cannot fail.
pub fn write_summary(out: &mut String, root: &str, report: &ScanReport)
    ensures
        final(out)@ == old(out)@ + summary_text(root@, *report),
{
    push_totals(out, root, report);
    push_git_section(out, report);
    push_languages_section(out, report);
    push_extensions_section(out, report);
    push_files_section(out, report);
    push_directories_section(out, report);
    assert(final(out)@ =~= old(out)@ + summary_text(root@, *report));
}


/// `s` holds no terminal control other than line breaks.
pub open spec fn printable_lines(s: Seq<char>) -> bool {
    forall|i: int| 0 <= i < s.len() ==> (#[trigger] s[i]) == '\n' || !is_terminal_control(s[i])
}

/// The reason an analysis gives for not running names nothing that holds a
/// terminal control.
pub open spec fn plain_reason<T>(analysis: Analysis<T>) -> bool {
    match analysis {
        Analysis::NotEvaluated(reason) => match reason.detail_text() {
            Some(detail) => forall|i: int| 0 <= i < detail.len() ==> !is_terminal_control(#[trigger] detail[i]),
            None => true,
        },
        Analysis::Ran(_) => true,
    }
}

broadcast proof fn lemma_join(a: Seq<char>, b: Seq<char>)
    requires
        printable_lines(a),
        printable_lines(b),
    ensures
        #[trigger] printable_lines(a + b),
{
    assert forall|i: int| 0 <= i < (a + b).len() implies (#[trigger] (a + b)[i]) == '\n' || !is_terminal_control(
        (a + b)[i],
    ) by {
        if i < a.len() {
            assert((a + b)[i] == a[i]);
        } else {
            assert((a + b)[i] == b[i - a.len()]);
        }
    }
}

proof fn lemma_char(c: char)
    requires
        c == '\n' || !is_terminal_control(c),
    ensures
        printable_lines(seq![c]),
{
}

proof fn lemma_decimal(n: nat)
    ensures
        printable_lines(decimal(n)),
    decreases n,
{
    broadcast use lemma_join;

    if n < 10 {
        lemma_char(crate::text::digit_char(n));
    } else {
        lemma_decimal(n / 10);
        lemma_char(crate::text::digit_char(n % 10));
        assert(decimal(n) =~= decimal(n / 10) + seq![crate::text::digit_char(n % 10)]);
    }
}

proof fn lemma_sanitized(text: Seq<char>)
    ensures
        printable_lines(sanitized(text)),
{
    crate::sanitizing_removes_every_control(text);
}

proof fn lemma_spaces(n: nat)
    ensures
        printable_lines(spaces(n)),
{
}

proof fn lemma_pads(s: Seq<char>, width: nat)
    requires
        printable_lines(s),
    ensures
        printable_lines(pad_end(s, width)),
        printable_lines(pad_start(s, width)),
{
    broadcast use lemma_join;

    if s.len() < width {
        lemma_spaces((width - s.len()) as nat);
    }
}

proof fn lemma_bytes_text(bytes: nat)
    ensures
        printable_lines(bytes_text(bytes)),
{
    broadcast use lemma_join;

    reveal_strlit(" B");
    reveal_strlit("KiB");
    reveal_strlit("MiB");
    reveal_strlit("GiB");
    let value = crate::render::as_double(bytes);
    let unit = crate::render::unit_index(value);
    lemma_decimal(bytes);
    if unit != 0 {
        let t = crate::render::tenths(value, crate::render::unit_size(unit));
        lemma_decimal(t / 10);
        assert(printable_lines(seq!['.', crate::text::digit_char(t % 10)]));
        lemma_char(' ');
        assert(printable_lines(crate::render::unit_name(unit)));
    }
}

proof fn lemma_reason(reason: NotEvaluated)
    requires
        plain_reason(Analysis::<()>::NotEvaluated(reason)),
    ensures
        printable_lines(reason_text(reason)),
{
    reveal_strlit("disabled");
    reveal_strlit("input_unavailable");
    reveal_strlit("unsupported");
    reveal_strlit("failed");
}

proof fn lemma_git_rows(report: ScanReport)
    requires
        plain_reason(report.git_status),
        plain_reason(report.git_activity),
    ensures
        printable_lines(status_row(report)),
        printable_lines(activity_row(report)),
{
    broadcast use lemma_join;

    reveal_strlit("  Status:   ");
    reveal_strlit(" modified, ");
    reveal_strlit(" staged, ");
    reveal_strlit(" untracked, ");
    reveal_strlit(" ignored");
    reveal_strlit("not evaluated (");
    reveal_strlit(")");
    reveal_strlit("\n");
    reveal_strlit("  Activity: ");
    reveal_strlit(" commits in the last ");
    reveal_strlit(" days");
    match report.git_status {
        Analysis::Ran(s) => {
            lemma_decimal(s.modified as nat);
            lemma_decimal(s.staged as nat);
            lemma_decimal(s.untracked as nat);
            lemma_decimal(s.ignored as nat);
        },
        Analysis::NotEvaluated(reason) => {
            lemma_reason(reason);
        },
    }
    match report.git_activity {
        Analysis::Ran(a) => {
            lemma_decimal(a.commits as nat);
            lemma_decimal(a.window_days as nat);
        },
        Analysis::NotEvaluated(reason) => {
            lemma_reason(reason);
        },
    }
}

proof fn lemma_language_rows(languages: Seq<LanguageStat>, with_lines: bool)
    ensures
        printable_lines(language_rows(languages, with_lines)),
    decreases languages.len(),
{
    broadcast use lemma_join;

    reveal_strlit("  ");
    reveal_strlit(" ");
    reveal_strlit(" files ");
    reveal_strlit(" lines");
    reveal_strlit("\n");
    if languages.len() > 0 {
        lemma_language_rows(languages.drop_last(), with_lines);
        let l = languages.last();
        lemma_sanitized(l.language@);
        lemma_pads(sanitized(l.language@), 16);
        lemma_decimal(l.files as nat);
        lemma_pads(decimal(l.files as nat), 3);
        lemma_bytes_text(l.bytes as nat);
        lemma_pads(bytes_text(l.bytes as nat), 10);
        lemma_decimal(l.lines as nat);
        lemma_pads(decimal(l.lines as nat), 10);
        assert(printable_lines(Seq::<char>::empty()));
    }
}

proof fn lemma_extension_rows(extensions: Seq<ExtensionCount>)
    ensures
        printable_lines(extension_rows(extensions)),
    decreases extensions.len(),
{
    broadcast use lemma_join;

    reveal_strlit("  ");
    reveal_strlit(" ");
    reveal_strlit("\n");
    if extensions.len() > 0 {
        lemma_extension_rows(extensions.drop_last());
        let e = extensions.last();
        lemma_sanitized(e.extension@);
        lemma_pads(sanitized(e.extension@), 16);
        lemma_decimal(e.files as nat);
    }
}

proof fn lemma_size_row(bytes: u64, path: Seq<char>)
    ensures
        printable_lines(size_row(bytes, path)),
{
    broadcast use lemma_join;

    reveal_strlit("  ");
    reveal_strlit("\n");
    lemma_bytes_text(bytes as nat);
    lemma_pads(bytes_text(bytes as nat), 10);
    lemma_sanitized(path);
}

proof fn lemma_file_rows(files: Seq<FileEntry>)
    ensures
        printable_lines(file_rows(files)),
    decreases files.len(),
{
    broadcast use lemma_join;

    if files.len() > 0 {
        lemma_file_rows(files.drop_last());
        lemma_size_row(files.last().bytes, files.last().path@);
    }
}

proof fn lemma_directory_rows(directories: Seq<DirectoryEntry>)
    ensures
        printable_lines(directory_rows(directories)),
    decreases directories.len(),
{
    broadcast use lemma_join;

    if directories.len() > 0 {
        lemma_directory_rows(directories.drop_last());
        lemma_size_row(directories.last().bytes, directories.last().path@);
    }
}

proof fn lemma_totals(root: Seq<char>, report: ScanReport)
    ensures
        printable_lines(totals_text(root, report)),
{
    broadcast use lemma_join;

    reveal(totals_text);
    reveal_strlit("Repository: ");
    reveal_strlit("\n");
    reveal_strlit("Files:      ");
    reveal_strlit("Size:       ");
    reveal_strlit("Lines:      ");
    reveal_strlit("not evaluated");
    lemma_sanitized(root);
    lemma_decimal(report.files as nat);
    lemma_bytes_text(report.bytes as nat);
    match report.lines {
        Analysis::Ran(counts) => lemma_decimal(counts.lines as nat),
        Analysis::NotEvaluated(_) => {},
    }
}

proof fn lemma_git_section(report: ScanReport)
    requires
        plain_reason(report.git_status),
        plain_reason(report.git_activity),
    ensures
        printable_lines(git_section(report)),
{
    broadcast use lemma_join;

    reveal(git_section);
    reveal_strlit("\nGit:\n");
    lemma_git_rows(report);
}

proof fn lemma_list_sections(report: ScanReport)
    ensures
        printable_lines(languages_section(report)),
        printable_lines(extensions_section(report)),
        printable_lines(files_section(report)),
        printable_lines(directories_section(report)),
{
    broadcast use lemma_join;

    reveal(languages_section);
    reveal(extensions_section);
    reveal(files_section);
    reveal(directories_section);
    reveal_strlit("\nLanguages:\n");
    reveal_strlit("\nExtensions:\n");
    reveal_strlit("\nLargest files:\n");
    reveal_strlit("\nLargest directories (aggregate, including subdirectories):\n");
    lemma_language_rows(report.by_language@, report.lines is Ran);
    lemma_extension_rows(report.by_extension@);
    lemma_file_rows(report.largest_files@);
    lemma_directory_rows(report.largest_directories@);
}

/// The summary holds no terminal control but its line breaks, whatever the
/// repository's names hold, as long as the reasons given for Git analyses
/// that did not run hold none.
pub proof fn summary_has_no_controls(root: Seq<char>, report: ScanReport)
    requires
        plain_reason(report.git_status),
        plain_reason(report.git_activity),
    ensures
        printable_lines(summary_text(root, report)),
{
    broadcast use lemma_join;

    lemma_totals(root, report);
    lemma_git_section(report);
    lemma_list_sections(report);
}

/// The largest-files section lists one size row per file, in order: a
/// single file gives its own row, and the rows of two lists in a row are
/// the rows of the first followed by those of the second.
pub proof fn one_size_row_per_file(a: Seq<FileEntry>, b: Seq<FileEntry>, file: FileEntry)
    ensures
        file_rows(seq![file]) == size_row(file.bytes, file.path@),
        file_rows(a + b) == file_rows(a) + file_rows(b),
    decreases b.len(),
{
    assert(seq![file].drop_last() =~= Seq::<FileEntry>::empty());
    assert(file_rows(Seq::<FileEntry>::empty()) + size_row(file.bytes, file.path@) =~= size_row(file.bytes, file.path@));
    if b.len() == 0 {
        assert(a + b =~= a);
        assert(file_rows(a) + file_rows(b) =~= file_rows(a));
    } else {
        one_size_row_per_file(a, b.drop_last(), file);
        assert((a + b).drop_last() =~= a + b.drop_last());
        assert((a + b).last() == b.last());
        assert(file_rows(a) + file_rows(b.drop_last()) + size_row(b.last().bytes, b.last().path@) =~= file_rows(a)
            + file_rows(b));
    }
}

/// The largest-directories section lists one size row per directory, in
/// order, in the same way.
pub proof fn one_size_row_per_directory(a: Seq<DirectoryEntry>, b: Seq<DirectoryEntry>, directory: DirectoryEntry)
    ensures
        directory_rows(seq![directory]) == size_row(directory.bytes, directory.path@),
        directory_rows(a + b) == directory_rows(a) + directory_rows(b),
    decreases b.len(),
{
    assert(seq![directory].drop_last() =~= Seq::<DirectoryEntry>::empty());
    assert(directory_rows(Seq::<DirectoryEntry>::empty()) + size_row(directory.bytes, directory.path@) =~= size_row(
        directory.bytes,
        directory.path@,
    ));
    if b.len() == 0 {
        assert(a + b =~= a);
        assert(directory_rows(a) + directory_rows(b) =~= directory_rows(a));
    } else {
        one_size_row_per_directory(a, b.drop_last(), directory);
        assert((a + b).drop_last() =~= a + b.drop_last());
        assert((a + b).last() == b.last());
        assert(directory_rows(a) + directory_rows(b.drop_last()) + size_row(b.last().bytes, b.last().path@)
            =~= directory_rows(a) + directory_rows(b));
    }
}

} // verus!
