//! The scan engine's decisions and bookkeeping.
//!
//! The program around the library walks the directory tree: it lists each
//! directory, asks [`entry_action`] what to do with every entry, reads the
//! files it is told to count through a [`lines::LineCounter`], and reports
//! each counted file to a [`ScanState`]. [`scan`] then turns the state into
//! the finished [`ScanReport`]. Every total in the report is a function of the
//! sequence of files recorded, which [`ScanState::history`] names.
use vstd::prelude::*;

pub mod lines;
pub mod tally;

use crate::analysis::cargo::{CargoLock, CargoManifest};
use crate::analysis::git::{GitActivity, GitStatus};
use crate::languages::{self, language_of};
use crate::sort::{self, Ranked};
use crate::text::{self, path_le, str_le};
use crate::{
    Analysis, DirectoryEntry, ExtensionCount, FileEntry, LanguageStat, LineCounts, NotEvaluated,
    ScanConfig, ScanReport, ScanWarning,
};
use lines::FileText;
use tally::{bump, files_at, bytes_at, lines_at, has_key, keys_sorted, Tally};

verus! {

/// What kind of directory entry the walk found, as `file_type` reports it
/// without following links.
#[derive(Debug, Clone, Copy, PartialEq, Eq, Structural)]
pub enum EntryKind {
    Symlink,
    Directory,
    File,
    Other,
}

/// What the walk does with an entry.
#[derive(Debug, Clone, Copy, PartialEq, Eq, Structural)]
pub enum EntryAction {
    /// Neither counted nor entered.
    Skip,
    /// A directory to walk into.
    Descend,
    /// A regular file to count.
    Count,
}

/// `name` is one of the configured ignored directory names.
pub open spec fn is_ignored(config: ScanConfig, name: Seq<char>) -> bool {
    exists|i: int| 0 <= i < config.ignored().len() && #[trigger] config.ignored()[i] == name
}

/// Whether an entry with this (UTF-8) name is skipped by name.
pub fn should_skip(name: &str, config: &ScanConfig) -> (skip: bool)
    ensures
        skip == is_ignored(*config, name@),
{
    let mut i: usize = 0;
    while i < config.ignored_directories.len()
        invariant
            i <= config.ignored_directories@.len(),
            forall|j: int| 0 <= j < i ==> #[trigger] config.ignored()[j] != name@,
        decreases config.ignored_directories.len() - i,
    {
        if text::str_eq(config.ignored_directories[i].as_str(), name) {
            assert(config.ignored()[i as int] == name@);
            return true;
        }
        i += 1;
    }
    false
}

/// The walk's decision for one entry: symbolic links are never followed and
/// a directory with an ignored name is never entered; other directories are
/// walked, regular files counted, anything else passed over. The ignored
/// names are directory names: a regular file of such a name is counted. A
/// name that is not UTF-8 (`None`) matches no ignored name.
pub open spec fn action_for(kind: EntryKind, name: Option<Seq<char>>, config: ScanConfig) -> EntryAction {
    if kind == EntryKind::Symlink || (kind == EntryKind::Directory && (name matches Some(n) && is_ignored(config, n))) {
        EntryAction::Skip
    } else if kind == EntryKind::Directory {
        EntryAction::Descend
    } else if kind == EntryKind::File {
        EntryAction::Count
    } else {
        EntryAction::Skip
    }
}

pub fn entry_action(kind: EntryKind, name: Option<&str>, config: &ScanConfig) -> (action: EntryAction)
    ensures
        action == action_for(kind, match name {
            Some(n) => Some(n@),
            None => None,
        }, *config),
{
    let skipped = match name {
        Some(n) => kind == EntryKind::Directory && should_skip(n, config),
        None => false,
    };
    if kind == EntryKind::Symlink || skipped {
        EntryAction::Skip
    } else if kind == EntryKind::Directory {
        EntryAction::Descend
    } else if kind == EntryKind::File {
        EntryAction::Count
    } else {
        EntryAction::Skip
    }
}

/// Index of the last `.` in `s`, or -1.
pub open spec fn last_dot(s: Seq<char>) -> int
    decreases s.len(),
{
    if s.len() == 0 {
        -1
    } else if s.last() == '.' {
        s.len() - 1
    } else {
        last_dot(s.drop_last())
    }
}

proof fn lemma_last_dot(s: Seq<char>)
    ensures
        -1 <= last_dot(s) < s.len(),
        last_dot(s) >= 0 ==> s[last_dot(s)] == '.',
        forall|i: int| last_dot(s) < i < s.len() ==> s[i] != '.',
    decreases s.len(),
{
    if s.len() > 0 && s.last() != '.' {
        lemma_last_dot(s.drop_last());
        assert forall|i: int| last_dot(s) < i < s.len() implies s[i] != '.' by {
            if i < s.len() - 1 {
                assert(s[i] == s.drop_last()[i]);
            }
        }
    }
}

/// What `Path::extension` gives for a file name: the text after the last
/// `.`, unless there is none, the name starts with its only dot, or the name
/// is `..`.
pub open spec fn extension_of(name: Seq<char>) -> Option<Seq<char>> {
    let k = last_dot(name);
    if name == seq!['.', '.'] || k <= 0 {
        None
    } else {
        Some(name.subrange(k + 1, name.len() as int))
    }
}

pub fn file_extension(name: &str) -> (extension: Option<String>)
    ensures
        match extension {
            Some(e) => extension_of(name@) == Some(e@),
            None => extension_of(name@) is None,
        },
{
    let chars = text::chars_of(name);
    let n = chars.len();
    proof {
        lemma_last_dot(chars@);
    }
    if n == 2 && chars[0] == '.' && chars[1] == '.' {
        assert(chars@ =~= seq!['.', '.']);
        return None;
    }
    let mut k = n;
    while k > 0 && chars[k - 1] != '.'
        invariant
            k <= n == chars@.len(),
            forall|i: int| k <= i < n ==> chars@[i] != '.',
        decreases k,
    {
        k -= 1;
    }
    proof {
        if k > 0 {
            assert(last_dot(chars@) == k - 1) by {
                if last_dot(chars@) > k - 1 {
                    assert(chars@[last_dot(chars@)] == '.');
                }
                if last_dot(chars@) < k - 1 {
                    assert(chars@[k - 1] == '.');
                }
            }
        } else {
            assert(last_dot(chars@) == -1) by {
                if last_dot(chars@) >= 0 {
                    assert(chars@[last_dot(chars@)] == '.');
                }
            }
        }
        assert(chars@ != seq!['.', '.']) by {
            if chars@ == seq!['.', '.'] {
                assert(chars@.len() == 2);
            }
        }
    }
    if k <= 1 {
        None
    } else {
        Some(text::string_of(&chars, k, n))
    }
}

/// ASCII upper-case letters lowered, everything else kept.
pub open spec fn ascii_lower(s: Seq<char>) -> Seq<char> {
    s.map_values(|c: char| if 'A' <= c <= 'Z' { ((c as u32) + 32) as char } else { c })
}

/// The key a file is counted under in `by_extension`: its extension, lower-
/// cased, or `[no extension]` when it has none (or its extension is not UTF-8).
pub open spec fn extension_key(extension: Option<Seq<char>>) -> Seq<char> {
    match extension {
        Some(e) => ascii_lower(e),
        None => languages::NO_EXTENSION@,
    }
}

/// Extension keys ignore letter case: an extension's key keeps its length,
/// lowers each ASCII capital to its small letter, and keeps every other
/// character.
pub proof fn extension_keys_ignore_case(e: Seq<char>)
    ensures
        extension_key(Some(e)).len() == e.len(),
        forall|i: int| 0 <= i < e.len() ==> !('A' <= #[trigger] extension_key(Some(e))[i] <= 'Z'),
        forall|i: int| 0 <= i < e.len() && !('A' <= e[i] <= 'Z') ==> #[trigger] extension_key(Some(e))[i] == e[i],
        forall|i: int| 0 <= i < e.len() && 'A' <= e[i] <= 'Z' ==> #[trigger] extension_key(Some(e))[i] as u32 == e[i] as u32 + 32,
{
    assert forall|i: int| 0 <= i < e.len() implies !('A' <= #[trigger] extension_key(Some(e))[i] <= 'Z') by {
        let c = e[i];
        if 'A' <= c <= 'Z' {
            assert(((c as u32) + 32) as char as u32 == c as u32 + 32);
        }
    }
}

/// `s` with ASCII capitals lowered: what `str::to_ascii_lowercase` returns.
pub fn ascii_lowercase(s: &str) -> (lower: String)
    ensures
        lower@ == ascii_lower(s@),
{
    let chars = text::chars_of(s);
    let mut out = String::new();
    let mut i: usize = 0;
    while i < chars.len()
        invariant
            i <= chars@.len(),
            chars@ == s@,
            out@ == ascii_lower(chars@.subrange(0, i as int)),
        decreases chars.len() - i,
    {
        let c = chars[i];
        if 'A' <= c && c <= 'Z' {
            let lowered = ((c as u32) + 32) as u8 as char;
            assert(lowered == ((c as u32) + 32) as char);
            out.push(lowered);
        } else {
            out.push(c);
        }
        i += 1;
        assert(out@ =~= ascii_lower(chars@.subrange(0, i as int)));
    }
    assert(chars@.subrange(0, chars@.len() as int) =~= chars@);
    out
}

pub fn extension_label(extension: Option<&str>) -> (key: String)
    ensures
        key@ == extension_key(match extension {
            Some(e) => Some(e@),
            None => None,
        }),
{
    match extension {
        None => text::owned(languages::NO_EXTENSION),
        Some(e) => ascii_lowercase(e),
    }
}

/// The language family a file is counted under: the table's entry for its
/// extension key, `[no extension]` for a file with none, `[unrecognized]`
/// for one the table does not list.
pub open spec fn language_key(key: Seq<char>) -> Seq<char> {
    match language_of(key) {
        Some(name) => name,
        None => if key == languages::NO_EXTENSION@ {
            languages::NO_EXTENSION@
        } else {
            languages::UNRECOGNIZED@
        },
    }
}

pub fn language_label(key: &str) -> (name: String)
    ensures
        name@ == language_key(key@),
{
    match languages::language_for_extension(key) {
        Some(name) => text::owned(name),
        None => {
            if text::str_eq(key, languages::NO_EXTENSION) {
                text::owned(languages::NO_EXTENSION)
            } else {
                text::owned(languages::UNRECOGNIZED)
            }
        },
    }
}

/// One counted file, as the scan's totals see it.
pub struct RecordedFile {
    /// Repository-relative path.
    pub path: Seq<char>,
    pub bytes: nat,
    /// The extension key.
    pub extension: Seq<char>,
    /// The language family.
    pub language: Seq<char>,
    /// What reading the file established; `None` when lines were not counted.
    pub content: Option<FileText>,
}

impl RecordedFile {
    /// Lines the file contributes: its count when it was read as text.
    pub open spec fn lines(self) -> nat {
        match self.content {
            Some(FileText::Text { lines }) => lines as nat,
            _ => 0,
        }
    }
}

/// Which totals a table keeps.
pub enum TableKind {
    Extension,
    Language,
    Directory,
}

/// `d` is a directory that contains `path`: a proper prefix ending right
/// before a `/`, or the root (the empty path). A file is not its own
/// directory.
pub open spec fn is_ancestor(d: Seq<char>, path: Seq<char>) -> bool {
    &&& d.len() < path.len()
    &&& (d.len() == 0 || (path[d.len() as int] == '/' && path.subrange(0, d.len() as int) == d))
}

/// The file is counted under key `x` in the table of this kind.
pub open spec fn touches(kind: TableKind, file: RecordedFile, x: Seq<char>) -> bool {
    match kind {
        TableKind::Extension => file.extension == x,
        TableKind::Language => file.language == x,
        TableKind::Directory => is_ancestor(x, file.path),
    }
}

/// Files counted under `x`.
pub open spec fn count_under(kind: TableKind, h: Seq<RecordedFile>, x: Seq<char>) -> nat
    decreases h.len(),
{
    if h.len() == 0 {
        0
    } else {
        count_under(kind, h.drop_last(), x) + if touches(kind, h.last(), x) {
            1nat
        } else {
            0nat
        }
    }
}

/// Bytes counted under `x`.
pub open spec fn bytes_under(kind: TableKind, h: Seq<RecordedFile>, x: Seq<char>) -> nat
    decreases h.len(),
{
    if h.len() == 0 {
        0
    } else {
        bytes_under(kind, h.drop_last(), x) + if touches(kind, h.last(), x) {
            h.last().bytes
        } else {
            0nat
        }
    }
}

/// Lines counted under `x`.
pub open spec fn lines_under(kind: TableKind, h: Seq<RecordedFile>, x: Seq<char>) -> nat
    decreases h.len(),
{
    if h.len() == 0 {
        0
    } else {
        lines_under(kind, h.drop_last(), x) + if touches(kind, h.last(), x) {
            h.last().lines()
        } else {
            0nat
        }
    }
}

/// Total bytes over all files.
pub open spec fn total_bytes(h: Seq<RecordedFile>) -> nat
    decreases h.len(),
{
    if h.len() == 0 {
        0
    } else {
        total_bytes(h.drop_last()) + h.last().bytes
    }
}

/// Total lines over all files read as text.
pub open spec fn total_lines(h: Seq<RecordedFile>) -> nat
    decreases h.len(),
{
    if h.len() == 0 {
        0
    } else {
        total_lines(h.drop_last()) + h.last().lines()
    }
}

/// Files whose content matches `pred`.
pub open spec fn count_content(h: Seq<RecordedFile>, pred: spec_fn(Option<FileText>) -> bool) -> nat
    decreases h.len(),
{
    if h.len() == 0 {
        0
    } else {
        count_content(h.drop_last(), pred) + if pred(h.last().content) {
            1nat
        } else {
            0nat
        }
    }
}

pub open spec fn is_text(c: Option<FileText>) -> bool {
    c matches Some(FileText::Text { .. })
}

pub open spec fn is_binary(c: Option<FileText>) -> bool {
    c matches Some(FileText::Binary)
}

pub open spec fn is_unreadable(c: Option<FileText>) -> bool {
    c matches Some(FileText::Unreadable)
}

/// The table of this kind is exactly the history's totals under each key.
pub open spec fn table_matches(kind: TableKind, t: Seq<Tally>, h: Seq<RecordedFile>) -> bool {
    &&& keys_sorted(t)
    &&& forall|x: Seq<char>| #[trigger] files_at(t, x) == count_under(kind, h, x)
    &&& forall|x: Seq<char>| #[trigger] bytes_at(t, x) == bytes_under(kind, h, x)
    &&& forall|x: Seq<char>| #[trigger] lines_at(t, x) == lines_under(kind, h, x)
    &&& forall|x: Seq<char>| #[trigger] has_key(t, x) == (count_under(kind, h, x) > 0)
}

proof fn lemma_under_bounds(kind: TableKind, h: Seq<RecordedFile>, x: Seq<char>)
    ensures
        count_under(kind, h, x) <= h.len(),
        bytes_under(kind, h, x) <= total_bytes(h),
        lines_under(kind, h, x) <= total_lines(h),
    decreases h.len(),
{
    if h.len() > 0 {
        lemma_under_bounds(kind, h.drop_last(), x);
    }
}

proof fn lemma_push_under(kind: TableKind, h: Seq<RecordedFile>, f: RecordedFile, x: Seq<char>)
    ensures
        count_under(kind, h.push(f), x) == count_under(kind, h, x) + if touches(kind, f, x) { 1nat } else { 0nat },
        bytes_under(kind, h.push(f), x) == bytes_under(kind, h, x) + if touches(kind, f, x) { f.bytes } else { 0nat },
        lines_under(kind, h.push(f), x) == lines_under(kind, h, x) + if touches(kind, f, x) { f.lines() } else { 0nat },
{
    assert(h.push(f).drop_last() =~= h);
}

proof fn lemma_push_totals(h: Seq<RecordedFile>, f: RecordedFile)
    ensures
        total_bytes(h.push(f)) == total_bytes(h) + f.bytes,
        total_lines(h.push(f)) == total_lines(h) + f.lines(),
        count_content(h.push(f), |c: Option<FileText>| is_text(c)) == count_content(h, |c: Option<FileText>| is_text(c)) + if is_text(f.content) { 1nat } else { 0nat },
        count_content(h.push(f), |c: Option<FileText>| is_binary(c)) == count_content(h, |c: Option<FileText>| is_binary(c)) + if is_binary(f.content) { 1nat } else { 0nat },
        count_content(h.push(f), |c: Option<FileText>| is_unreadable(c)) == count_content(h, |c: Option<FileText>| is_unreadable(c)) + if is_unreadable(f.content) { 1nat } else { 0nat },
{
    assert(h.push(f).drop_last() =~= h);
}

proof fn lemma_count_content_bound(h: Seq<RecordedFile>, pred: spec_fn(Option<FileText>) -> bool)
    ensures
        count_content(h, pred) <= h.len(),
    decreases h.len(),
{
    if h.len() > 0 {
        lemma_count_content_bound(h.drop_last(), pred);
    }
}

/// A table that matches `h` after `f`'s keys were added to one matching `h`.
proof fn lemma_table_push(
    kind: TableKind,
    t0: Seq<Tally>,
    t1: Seq<Tally>,
    h: Seq<RecordedFile>,
    f: RecordedFile,
)
    requires
        table_matches(kind, t0, h),
        keys_sorted(t1),
        forall|x: Seq<char>| #[trigger] files_at(t1, x) == files_at(t0, x) + if touches(kind, f, x) { 1nat } else { 0nat },
        forall|x: Seq<char>| #[trigger] bytes_at(t1, x) == bytes_at(t0, x) + if touches(kind, f, x) { f.bytes } else { 0nat },
        forall|x: Seq<char>| #[trigger] lines_at(t1, x) == lines_at(t0, x) + if touches(kind, f, x) { f.lines() } else { 0nat },
        forall|x: Seq<char>| #[trigger] has_key(t1, x) == (has_key(t0, x) || touches(kind, f, x)),
    ensures
        table_matches(kind, t1, h.push(f)),
{
    assert forall|x: Seq<char>| #[trigger] files_at(t1, x) == count_under(kind, h.push(f), x) by {
        lemma_push_under(kind, h, f, x);
    }
    assert forall|x: Seq<char>| #[trigger] bytes_at(t1, x) == bytes_under(kind, h.push(f), x) by {
        lemma_push_under(kind, h, f, x);
    }
    assert forall|x: Seq<char>| #[trigger] lines_at(t1, x) == lines_under(kind, h.push(f), x) by {
        lemma_push_under(kind, h, f, x);
    }
    assert forall|x: Seq<char>| #[trigger] has_key(t1, x) == (count_under(kind, h.push(f), x) > 0) by {
        lemma_push_under(kind, h, f, x);
        assert(has_key(t0, x) == (count_under(kind, h, x) > 0));
    }
}

/// The message a file that could not be read for line counting is reported with.
pub open spec fn unreadable_message() -> Seq<char> {
    "could not read file to count lines"@
}

/// No path was recorded twice.
pub open spec fn paths_distinct(h: Seq<RecordedFile>) -> bool {
    forall|i: int, j: int| 0 <= i < j < h.len() ==> (#[trigger] h[i]).path != (#[trigger] h[j]).path
}

/// Every file that could not be read is named in a warning, by its path
/// joined to `root`.
pub open spec fn unreadable_files_warned(h: Seq<RecordedFile>, warnings: Seq<ScanWarning>, root: Seq<char>) -> bool {
    forall|i: int|
        0 <= i < h.len() && (#[trigger] h[i]).content == Some(FileText::Unreadable) ==> exists|j: int|
            0 <= j < warnings.len() && (#[trigger] warnings[j]).path@ == text::joined(root, h[i].path)
                && warnings[j].message@ == unreadable_message()
}

proof fn lemma_warned_after_push(h: Seq<RecordedFile>, w0: Seq<ScanWarning>, w1: Seq<ScanWarning>, root: Seq<char>)
    requires
        unreadable_files_warned(h, w0, root),
        w1.len() == w0.len() + 1,
        forall|j: int| 0 <= j < w0.len() ==> w1[j] == w0[j],
    ensures
        unreadable_files_warned(h, w1, root),
{
    assert forall|i: int| 0 <= i < h.len() && (#[trigger] h[i]).content == Some(FileText::Unreadable) implies exists|j: int|
        0 <= j < w1.len() && (#[trigger] w1[j]).path@ == text::joined(root, h[i].path) && w1[j].message@
            == unreadable_message() by {
        let j = choose|j: int| 0 <= j < w0.len() && (#[trigger] w0[j]).path@ == text::joined(root, h[i].path)
            && w0[j].message@ == unreadable_message();
        assert(w1[j] == w0[j]);
    }
}

proof fn lemma_warned_after_record(
    h: Seq<RecordedFile>,
    f: RecordedFile,
    w0: Seq<ScanWarning>,
    w1: Seq<ScanWarning>,
    root: Seq<char>,
)
    requires
        unreadable_files_warned(h, w0, root),
        f.content == Some(FileText::Unreadable) ==> w1.len() == w0.len() + 1 && w1.last().path@ == text::joined(root, f.path)
            && w1.last().message@ == unreadable_message(),
        f.content != Some(FileText::Unreadable) ==> w1.len() == w0.len(),
        forall|j: int| 0 <= j < w0.len() ==> w1[j] == w0[j],
    ensures
        unreadable_files_warned(h.push(f), w1, root),
{
    let h1 = h.push(f);
    assert forall|i: int| 0 <= i < h1.len() && (#[trigger] h1[i]).content == Some(FileText::Unreadable) implies exists|j: int|
        0 <= j < w1.len() && (#[trigger] w1[j]).path@ == text::joined(root, h1[i].path) && w1[j].message@
            == unreadable_message() by {
        if i < h.len() {
            assert(h1[i] == h[i]);
            let j = choose|j: int| 0 <= j < w0.len() && (#[trigger] w0[j]).path@ == text::joined(root, h[i].path)
                && w0[j].message@ == unreadable_message();
            assert(w1[j] == w0[j]);
        } else {
            assert(h1[i] == f);
            assert(w1[w1.len() - 1] == w1.last());
        }
    }
}

/// The running state of a scan: totals so far, the files counted, and the
/// warnings raised.
pub struct ScanState {
    root: String,
    count_lines: bool,
    files: usize,
    bytes: u64,
    extensions: Vec<Tally>,
    languages: Vec<Tally>,
    directories: Vec<Tally>,
    line_counts: LineCounts,
    entries: Vec<FileEntry>,
    warnings: Vec<ScanWarning>,
    history: Ghost<Seq<RecordedFile>>,
}

impl ScanState {
    /// Every file recorded so far, in the order it was recorded.
    pub closed spec fn history(&self) -> Seq<RecordedFile> {
        self.history@
    }

    /// How the scanned directory is named; warnings name files below it.
    pub closed spec fn root(&self) -> Seq<char> {
        self.root@
    }

    /// Whether this scan counts lines.
    pub closed spec fn counts_lines(&self) -> bool {
        self.count_lines
    }

    /// Every warning raised so far, in order.
    pub closed spec fn warnings(&self) -> Seq<ScanWarning> {
        self.warnings@
    }

    /// The counted files as report rows, in recording order.
    pub closed spec fn entries(&self) -> Seq<FileEntry> {
        self.entries@
    }

    /// The per-table contents.
    pub closed spec fn table(&self, kind: TableKind) -> Seq<Tally> {
        match kind {
            TableKind::Extension => self.extensions@,
            TableKind::Language => self.languages@,
            TableKind::Directory => self.directories@,
        }
    }

    pub closed spec fn wf(&self) -> bool {
        let h = self.history@;
        &&& self.files == h.len()
        &&& self.bytes == total_bytes(h)
        &&& table_matches(TableKind::Extension, self.extensions@, h)
        &&& table_matches(TableKind::Language, self.languages@, h)
        &&& table_matches(TableKind::Directory, self.directories@, h)
        &&& tally::total_files(self.extensions@) == h.len()
        &&& tally::total_bytes(self.extensions@) == total_bytes(h)
        &&& tally::total_files(self.languages@) == h.len()
        &&& tally::total_bytes(self.languages@) == total_bytes(h)
        &&& tally::total_lines(self.languages@) == total_lines(h)
        &&& paths_distinct(h)
        &&& unreadable_files_warned(h, self.warnings@, self.root@)
        &&& self.line_counts.lines == total_lines(h)
        &&& self.line_counts.text_files == count_content(h, |c: Option<FileText>| is_text(c))
        &&& self.line_counts.binary_files == count_content(h, |c: Option<FileText>| is_binary(c))
        &&& self.line_counts.unreadable_files == count_content(h, |c: Option<FileText>| is_unreadable(c))
        &&& forall|i: int| 0 <= i < h.len() ==> (#[trigger] h[i]).path.len() > 0
        &&& forall|i: int| 0 <= i < h.len() ==> ((#[trigger] h[i]).content is None <==> !self.count_lines)
        &&& self.entries@.len() == h.len()
        &&& forall|i: int| 0 <= i < h.len() ==> (#[trigger] self.entries@[i]).path@ == h[i].path
            && self.entries@[i].bytes == h[i].bytes
    }

    /// An empty scan of the directory named `root`, under `config`.
    pub fn new(root: &str, config: &ScanConfig) -> (state: Self)
        ensures
            state.wf(),
            state.root() == root@,
            state.history() == Seq::<RecordedFile>::empty(),
            state.warnings() == Seq::<ScanWarning>::empty(),
            state.counts_lines() == config.count_lines,
    {
        let state = ScanState {
            root: text::owned(root),
            count_lines: config.count_lines,
            files: 0,
            bytes: 0,
            extensions: Vec::new(),
            languages: Vec::new(),
            directories: Vec::new(),
            line_counts: LineCounts::default(),
            entries: Vec::new(),
            warnings: Vec::new(),
            history: Ghost(Seq::empty()),
        };
        proof {
            let h = Seq::<RecordedFile>::empty();
            assert forall|x: Seq<char>| #[trigger] has_key(Seq::<Tally>::empty(), x) == (count_under(TableKind::Extension, h, x) > 0) by {}
            assert forall|x: Seq<char>| #[trigger] has_key(Seq::<Tally>::empty(), x) == (count_under(TableKind::Language, h, x) > 0) by {}
            assert forall|x: Seq<char>| #[trigger] has_key(Seq::<Tally>::empty(), x) == (count_under(TableKind::Directory, h, x) > 0) by {}
        }
        state
    }

    /// Whether one more file of `bytes` bytes and `lines` lines can be
    /// counted without a total overflowing.
    pub fn can_record(&self, bytes: u64, lines: u64) -> (ok: bool)
        requires
            self.wf(),
        ensures
            ok == (self.history().len() < usize::MAX && total_bytes(self.history()) + bytes
                <= u64::MAX && total_lines(self.history()) + lines <= u64::MAX),
    {
        self.files < usize::MAX && bytes <= u64::MAX - self.bytes && lines <= u64::MAX
            - self.line_counts.lines
    }

    /// Records a non-fatal problem on `path`.
    pub fn add_warning(&mut self, path: String, message: String)
        requires
            old(self).wf(),
        ensures
            final(self).wf(),
            final(self).history() == old(self).history(),
            final(self).root() == old(self).root(),
            final(self).counts_lines() == old(self).counts_lines(),
            final(self).warnings() == old(self).warnings().push(ScanWarning { path, message }),
    {
        let ghost w0 = self.warnings@;
        self.warnings.push(ScanWarning { path, message });
        proof {
            lemma_warned_after_push(self.history@, w0, self.warnings@, self.root@);
        }
    }

    /// Counts one regular file: `relative_path` is its path below the root,
    /// not recorded before, and warnings name it by the two joined;
    /// `extension` is its extension key (see
    /// [`extension_label`]), and `content` what reading it established, or
    /// `None` when lines are not being counted. A file that could not be read
    /// is still counted, and also named in a warning.
    pub fn record_file(
        &mut self,
        relative_path: String,
        bytes: u64,
        extension: String,
        content: Option<FileText>,
    )
        requires
            old(self).wf(),
            relative_path@.len() > 0,
            relative_path@[0] != '/',
            forall|i: int| 0 <= i < old(self).history().len() ==> (#[trigger] old(self).history()[i]).path != relative_path@,
            (content is None) == !old(self).counts_lines(),
            old(self).history().len() < usize::MAX,
            total_bytes(old(self).history()) + bytes <= u64::MAX,
            total_lines(old(self).history()) + (match content {
                Some(FileText::Text { lines }) => lines as nat,
                _ => 0nat,
            }) <= u64::MAX,
        ensures
            final(self).wf(),
            final(self).root() == old(self).root(),
            final(self).counts_lines() == old(self).counts_lines(),
            final(self).history() == old(self).history().push(
                RecordedFile {
                    path: relative_path@,
                    bytes: bytes as nat,
                    extension: extension@,
                    language: language_key(extension@),
                    content,
                },
            ),
            final(self).warnings() == if content == Some(FileText::Unreadable) {
                old(self).warnings().push(
                    ScanWarning { path: final(self).warnings().last().path, message: final(self).warnings().last().message },
                )
            } else {
                old(self).warnings()
            },
            content == Some(FileText::Unreadable) ==> final(self).warnings().last().message@
                == unreadable_message() && final(self).warnings().last().path@ == text::joined(old(self).root(), relative_path@),
    {
        let ghost h = self.history@;
        let language = language_label(extension.as_str());
        let file_lines: u64 = match content {
            Some(FileText::Text { lines }) => lines,
            _ => 0,
        };
        let ghost f = RecordedFile {
            path: relative_path@,
            bytes: bytes as nat,
            extension: extension@,
            language: language@,
            content,
        };
        assert(f.lines() == file_lines);
        proof {
            lemma_under_bounds(TableKind::Extension, h, extension@);
            lemma_under_bounds(TableKind::Language, h, language@);
            lemma_push_totals(h, f);
            lemma_count_content_bound(h, |c: Option<FileText>| is_text(c));
            lemma_count_content_bound(h, |c: Option<FileText>| is_binary(c));
            lemma_count_content_bound(h, |c: Option<FileText>| is_unreadable(c));
        }

        self.files = self.files + 1;
        self.bytes = self.bytes + bytes;

        let ghost e0 = self.extensions@;
        bump(&mut self.extensions, extension.as_str(), bytes, file_lines);
        proof {
            lemma_table_push(TableKind::Extension, e0, self.extensions@, h, f);
        }
        let ghost l0 = self.languages@;
        bump(&mut self.languages, language.as_str(), bytes, file_lines);
        proof {
            lemma_table_push(TableKind::Language, l0, self.languages@, h, f);
        }
        let ghost d0 = self.directories@;
        self.add_to_directories(&relative_path, bytes, file_lines, Ghost(h), Ghost(f));
        proof {
            lemma_table_push(TableKind::Directory, d0, self.directories@, h, f);
        }

        match content {
            Some(FileText::Text { lines }) => {
                self.line_counts.lines = self.line_counts.lines + lines;
                self.line_counts.text_files = self.line_counts.text_files + 1;
            },
            Some(FileText::Binary) => {
                self.line_counts.binary_files = self.line_counts.binary_files + 1;
            },
            Some(FileText::Unreadable) => {
                self.line_counts.unreadable_files = self.line_counts.unreadable_files + 1;
                let message = text::owned("could not read file to count lines");
                let full_path = text::join(self.root.as_str(), relative_path.as_str());
                self.warnings.push(ScanWarning { path: full_path, message });
            },
            None => {},
        }

        let ghost w_before = old(self).warnings@;
        self.entries.push(FileEntry { path: relative_path, bytes });
        self.history = Ghost(h.push(f));
        proof {
            let h1 = h.push(f);
            assert forall|i: int, j: int| 0 <= i < j < h1.len() implies (#[trigger] h1[i]).path != (#[trigger] h1[j]).path by {
                if j < h.len() {
                    assert(h1[i] == h[i] && h1[j] == h[j]);
                } else {
                    assert(h1[i] == h[i]);
                }
            }
            lemma_warned_after_record(h, f, w_before, self.warnings@, self.root@);
            assert(h1.drop_last() =~= h);
            assert forall|i: int| 0 <= i < h1.len() implies ((#[trigger] h1[i]).content is None <==> !self.count_lines) by {
                if i < h.len() {
                    assert(h1[i] == h[i]);
                }
            }
            assert forall|i: int| 0 <= i < h1.len() implies (#[trigger] h1[i]).path.len() > 0 by {
                if i < h.len() {
                    assert(h1[i] == h[i]);
                }
            }
            assert forall|i: int| 0 <= i < h1.len() implies (#[trigger] self.entries@[i]).path@ == h1[i].path
                && self.entries@[i].bytes == h1[i].bytes by {
                if i < h.len() {
                    assert(h1[i] == h[i]);
                }
            }
        }
    }

    /// Adds one file to every directory above it, the root included.
    fn add_to_directories(
        &mut self,
        relative_path: &String,
        bytes: u64,
        lines: u64,
        Ghost(h): Ghost<Seq<RecordedFile>>,
        Ghost(f): Ghost<RecordedFile>,
    )
        requires
            table_matches(TableKind::Directory, old(self).directories@, h),
            f.path == relative_path@,
            f.bytes == bytes,
            f.lines() == lines,
            relative_path@.len() > 0,
            relative_path@[0] != '/',
            h.len() < usize::MAX,
            total_bytes(h) + bytes <= u64::MAX,
            total_lines(h) + lines <= u64::MAX,
        ensures
            keys_sorted(final(self).directories@),
            forall|x: Seq<char>| #[trigger] files_at(final(self).directories@, x) == files_at(old(self).directories@, x) + if touches(TableKind::Directory, f, x) { 1nat } else { 0nat },
            forall|x: Seq<char>| #[trigger] bytes_at(final(self).directories@, x) == bytes_at(old(self).directories@, x) + if touches(TableKind::Directory, f, x) { f.bytes } else { 0nat },
            forall|x: Seq<char>| #[trigger] lines_at(final(self).directories@, x) == lines_at(old(self).directories@, x) + if touches(TableKind::Directory, f, x) { f.lines() } else { 0nat },
            forall|x: Seq<char>| #[trigger] has_key(final(self).directories@, x) == (has_key(old(self).directories@, x) || touches(TableKind::Directory, f, x)),
            final(self).count_lines == old(self).count_lines,
            final(self).files == old(self).files,
            final(self).bytes == old(self).bytes,
            final(self).extensions == old(self).extensions,
            final(self).languages == old(self).languages,
            final(self).line_counts == old(self).line_counts,
            final(self).entries == old(self).entries,
            final(self).warnings == old(self).warnings,
            final(self).history == old(self).history,
            final(self).root == old(self).root,
    {
        let ghost t0 = self.directories@;
        let chars = text::chars_of(relative_path.as_str());
        let n = chars.len();
        let ghost p = relative_path@;
        proof {
            lemma_under_bounds(TableKind::Directory, h, Seq::<char>::empty());
        }
        let root = String::new();
        bump(&mut self.directories, root.as_str(), bytes, lines);
        proof {
            assert forall|x: Seq<char>| (x == root@) == (is_ancestor(x, p) && (x.len() == 0 || x.len() < 0)) by {
                if x.len() == 0 {
                    assert(x =~= root@);
                }
            }
        }
        let mut k: usize = 0;
        while k < n
            invariant
                chars@ == p,
                n == p.len(),
                k <= n,
                p.len() > 0,
                p[0] != '/',
                f.path == p,
                f.bytes == bytes,
                f.lines() == lines,
                table_matches(TableKind::Directory, t0, h),
                h.len() < usize::MAX,
                total_bytes(h) + bytes <= u64::MAX,
                total_lines(h) + lines <= u64::MAX,
                keys_sorted(self.directories@),
                self.count_lines == old(self).count_lines,
                self.files == old(self).files,
                self.bytes == old(self).bytes,
                self.extensions == old(self).extensions,
                self.languages == old(self).languages,
                self.line_counts == old(self).line_counts,
                self.entries == old(self).entries,
                self.warnings == old(self).warnings,
                self.history == old(self).history,
                self.root == old(self).root,
                t0 == old(self).directories@,
                forall|x: Seq<char>| #[trigger] files_at(self.directories@, x) == files_at(t0, x) + if is_ancestor(x, p) && (x.len() == 0 || x.len() < k) { 1nat } else { 0nat },
                forall|x: Seq<char>| #[trigger] bytes_at(self.directories@, x) == bytes_at(t0, x) + if is_ancestor(x, p) && (x.len() == 0 || x.len() < k) { bytes as nat } else { 0nat },
                forall|x: Seq<char>| #[trigger] lines_at(self.directories@, x) == lines_at(t0, x) + if is_ancestor(x, p) && (x.len() == 0 || x.len() < k) { lines as nat } else { 0nat },
                forall|x: Seq<char>| #[trigger] has_key(self.directories@, x) == (has_key(t0, x) || (is_ancestor(x, p) && (x.len() == 0 || x.len() < k))),
            decreases n - k,
        {
            if chars[k] == '/' {
                let prefix = text::string_of(&chars, 0, k);
                proof {
                    lemma_under_bounds(TableKind::Directory, h, prefix@);
                    if k == 0 {
                        assert(p[0] != '/');
                    }
                    assert(is_ancestor(prefix@, p));
                }
                bump(&mut self.directories, prefix.as_str(), bytes, lines);
                proof {
                    assert forall|x: Seq<char>| x == prefix@ implies x.len() == k && x.len() > 0 by {}
                }
            } else {
                proof {
                    assert forall|x: Seq<char>| x.len() == k && x.len() > 0 implies !is_ancestor(x, p) by {}
                }
            }
            k += 1;
        }
        proof {
            assert forall|x: Seq<char>| is_ancestor(x, p) implies x.len() == 0 || x.len() < n by {}
        }
    }
}


impl Ranked for FileEntry {
    /// Larger files first; equal sizes in path order.
    open spec fn ranks_before(self, other: Self) -> bool {
        self.bytes > other.bytes || (self.bytes == other.bytes && path_le(self.path@, other.path@))
    }

    fn ranks_before_exec(&self, other: &Self) -> (r: bool) {
        self.bytes > other.bytes || (self.bytes == other.bytes && text::path_le_exec(
            self.path.as_str(),
            other.path.as_str(),
        ))
    }

    proof fn ranks_total(a: Self, b: Self) {
        text::lemma_path_le_total(a.path@, b.path@);
    }

    proof fn ranks_transitive(a: Self, b: Self, c: Self) {
        if a.bytes == b.bytes && b.bytes == c.bytes {
            text::lemma_path_le_transitive(a.path@, b.path@, c.path@);
        }
    }
}

impl Ranked for DirectoryEntry {
    /// Larger directories first; equal sizes in path order.
    open spec fn ranks_before(self, other: Self) -> bool {
        self.bytes > other.bytes || (self.bytes == other.bytes && path_le(self.path@, other.path@))
    }

    fn ranks_before_exec(&self, other: &Self) -> (r: bool) {
        self.bytes > other.bytes || (self.bytes == other.bytes && text::path_le_exec(
            self.path.as_str(),
            other.path.as_str(),
        ))
    }

    proof fn ranks_total(a: Self, b: Self) {
        text::lemma_path_le_total(a.path@, b.path@);
    }

    proof fn ranks_transitive(a: Self, b: Self, c: Self) {
        if a.bytes == b.bytes && b.bytes == c.bytes {
            text::lemma_path_le_transitive(a.path@, b.path@, c.path@);
        }
    }
}

/// A directory entry's name as raw bytes, ordered as `Path` orders names
/// within one directory: byte by byte.
impl Ranked for Vec<u8> {
    open spec fn ranks_before(self, other: Self) -> bool {
        text::bytes_le(self@, other@)
    }

    fn ranks_before_exec(&self, other: &Self) -> (r: bool) {
        text::bytes_le_exec(self.as_slice(), other.as_slice())
    }

    proof fn ranks_total(a: Self, b: Self) {
        text::lemma_bytes_le_total(a@, b@);
    }

    proof fn ranks_transitive(a: Self, b: Self, c: Self) {
        text::lemma_bytes_le_transitive(a@, b@, c@);
    }
}

/// The order a directory's entries are visited in, so that the walk never
/// depends on the order the filesystem lists them: by name, byte by byte.
pub fn walk_order(names: Vec<Vec<u8>>) -> (ordered: Vec<Vec<u8>>)
    ensures
        ordered@ == sort::sorted(names@),
        sort::is_ranked(ordered@),
        ordered@.to_multiset() == names@.to_multiset(),
{
    sort::sort(names)
}

/// The walk never depends on the order the filesystem lists a directory
/// in: two listings of the same names are visited in the same order, name
/// for name.
pub proof fn walk_ignores_listing_order(first: Seq<Vec<u8>>, second: Seq<Vec<u8>>)
    requires
        first.to_multiset() == second.to_multiset(),
    ensures
        sort::sorted(first).len() == sort::sorted(second).len(),
        forall|k: int| 0 <= k < sort::sorted(first).len() ==> #[trigger] sort::sorted(first)[k]@ == sort::sorted(second)[k]@,
{
    sort::lemma_sorted(first);
    sort::lemma_sorted(second);
    sort::lemma_ranked_alike(sort::sorted(first), sort::sorted(second));
    assert forall|k: int| 0 <= k < sort::sorted(first).len() implies #[trigger] sort::sorted(first)[k]@ == sort::sorted(
        second,
    )[k]@ by {
        text::lemma_bytes_le_antisymmetric(sort::sorted(first)[k]@, sort::sorted(second)[k]@);
    }
}

impl Ranked for LanguageStat {
    /// Larger byte totals first; equal totals in name order.
    open spec fn ranks_before(self, other: Self) -> bool {
        self.bytes > other.bytes || (self.bytes == other.bytes && str_le(self.language@, other.language@))
    }

    fn ranks_before_exec(&self, other: &Self) -> (r: bool) {
        self.bytes > other.bytes || (self.bytes == other.bytes && text::str_le_exec(
            self.language.as_str(),
            other.language.as_str(),
        ))
    }

    proof fn ranks_total(a: Self, b: Self) {
        text::lemma_str_le_total(a.language@, b.language@);
    }

    proof fn ranks_transitive(a: Self, b: Self, c: Self) {
        if a.bytes == b.bytes && b.bytes == c.bytes {
            text::lemma_str_le_transitive(a.language@, b.language@, c.language@);
        }
    }
}

/// The `by_extension` rows of a table.
pub open spec fn extension_rows_of(t: Seq<Tally>) -> Seq<ExtensionCount> {
    t.map_values(|row: Tally| ExtensionCount { extension: row.key, files: row.files })
}

/// The per-language rows of a table, before ordering.
pub open spec fn language_rows_of(t: Seq<Tally>) -> Seq<LanguageStat> {
    t.map_values(|row: Tally| LanguageStat { language: row.key, files: row.files, bytes: row.bytes, lines: row.lines })
}

/// The per-directory rows of a table, the root left out, before ordering.
pub open spec fn directory_rows_of(t: Seq<Tally>) -> Seq<DirectoryEntry>
    decreases t.len(),
{
    if t.len() == 0 {
        seq![]
    } else if t.last().key@.len() == 0 {
        directory_rows_of(t.drop_last())
    } else {
        directory_rows_of(t.drop_last()).push(DirectoryEntry { path: t.last().key, files: t.last().files, bytes: t.last().bytes })
    }
}

/// `rows` hold every extension key once, ascending, with its file count.
pub open spec fn describes_extensions(rows: Seq<ExtensionCount>, h: Seq<RecordedFile>) -> bool {
    &&& forall|i: int, j: int| 0 <= i < j < rows.len() ==> str_le(#[trigger] rows[i].extension@, #[trigger] rows[j].extension@)
        && rows[i].extension@ != rows[j].extension@
    &&& forall|i: int| 0 <= i < rows.len() ==> (#[trigger] rows[i]).files == count_under(TableKind::Extension, h, rows[i].extension@)
        && rows[i].files > 0
    &&& forall|x: Seq<char>| count_under(TableKind::Extension, h, x) > 0 ==> exists|i: int| 0 <= i < rows.len() && (#[trigger] rows[i]).extension@ == x
}

/// `rows` hold every language once, with its files, bytes and lines.
pub open spec fn describes_languages(rows: Seq<LanguageStat>, h: Seq<RecordedFile>) -> bool {
    &&& forall|i: int, j: int| 0 <= i < j < rows.len() ==> (#[trigger] rows[i]).language@ != (#[trigger] rows[j]).language@
    &&& forall|i: int| 0 <= i < rows.len() ==> (#[trigger] rows[i]).files == count_under(TableKind::Language, h, rows[i].language@)
        && rows[i].bytes == bytes_under(TableKind::Language, h, rows[i].language@)
        && rows[i].lines == lines_under(TableKind::Language, h, rows[i].language@)
        && rows[i].files > 0
    &&& forall|x: Seq<char>| count_under(TableKind::Language, h, x) > 0 ==> exists|i: int| 0 <= i < rows.len() && (#[trigger] rows[i]).language@ == x
}

/// `rows` hold every directory above a counted file once, the root excepted,
/// with its aggregate files and bytes.
pub open spec fn describes_directories(rows: Seq<DirectoryEntry>, h: Seq<RecordedFile>) -> bool {
    &&& forall|i: int, j: int| 0 <= i < j < rows.len() ==> (#[trigger] rows[i]).path@ != (#[trigger] rows[j]).path@
    &&& forall|i: int| 0 <= i < rows.len() ==> (#[trigger] rows[i]).path@.len() > 0
        && rows[i].files == count_under(TableKind::Directory, h, rows[i].path@)
        && rows[i].bytes == bytes_under(TableKind::Directory, h, rows[i].path@)
        && rows[i].files > 0
    &&& forall|x: Seq<char>| x.len() > 0 && count_under(TableKind::Directory, h, x) > 0 ==> exists|i: int| 0 <= i < rows.len() && (#[trigger] rows[i]).path@ == x
}

/// `entries` are the counted files, in recording order.
pub open spec fn describes_entries(entries: Seq<FileEntry>, h: Seq<RecordedFile>) -> bool {
    &&& entries.len() == h.len()
    &&& forall|i: int| 0 <= i < h.len() ==> (#[trigger] entries[i]).path@ == h[i].path && entries[i].bytes == h[i].bytes
}

proof fn lemma_row_present(t: Seq<Tally>, kind: TableKind, h: Seq<RecordedFile>, x: Seq<char>) -> (i: int)
    requires
        table_matches(kind, t, h),
        count_under(kind, h, x) > 0,
    ensures
        0 <= i < t.len(),
        t[i].key@ == x,
{
    assert(has_key(t, x));
    choose|i: int| 0 <= i < t.len() && #[trigger] t[i].key@ == x
}

proof fn lemma_directory_rows(t: Seq<Tally>, h: Seq<RecordedFile>)
    requires
        table_matches(TableKind::Directory, t, h),
    ensures
        describes_directories(directory_rows_of(t), h),
{
    lemma_directory_rows_of(t);
    let rows = directory_rows_of(t);
    assert forall|i: int| 0 <= i < rows.len() implies (#[trigger] rows[i]).path@.len() > 0
        && rows[i].files == count_under(TableKind::Directory, h, rows[i].path@)
        && rows[i].bytes == bytes_under(TableKind::Directory, h, rows[i].path@)
        && rows[i].files > 0 by {
        let k = choose|k: int| 0 <= k < t.len() && #[trigger] t[k].key == rows[i].path && t[k].files == rows[i].files && t[k].bytes == rows[i].bytes && t[k].key@.len() > 0;
        tally::lemma_row(t, k);
        assert(has_key(t, t[k].key@));
    }
    assert forall|x: Seq<char>| x.len() > 0 && count_under(TableKind::Directory, h, x) > 0 implies exists|i: int| 0 <= i < rows.len() && (#[trigger] rows[i]).path@ == x by {
        let k = lemma_row_present(t, TableKind::Directory, h, x);
        assert(t[k].key@.len() > 0);
    }
}

/// `row` is a non-root row of `t`.
pub open spec fn comes_from(t: Seq<Tally>, row: DirectoryEntry) -> bool {
    exists|k: int| 0 <= k < t.len() && #[trigger] t[k].key == row.path && t[k].files == row.files
        && t[k].bytes == row.bytes && t[k].key@.len() > 0
}

/// Every row of `directory_rows_of(t)` comes from a non-root row of `t`, every
/// non-root row of `t` gives one, and keys stay distinct.
proof fn lemma_directory_rows_of(t: Seq<Tally>)
    requires
        keys_sorted(t),
    ensures
        forall|i: int| 0 <= i < directory_rows_of(t).len() ==> comes_from(t, #[trigger] directory_rows_of(t)[i]),
        forall|k: int| 0 <= k < t.len() && (#[trigger] t[k]).key@.len() > 0 ==> exists|i: int| 0 <= i < directory_rows_of(t).len() && (#[trigger] directory_rows_of(t)[i]).path@ == t[k].key@,
        forall|i: int, j: int| 0 <= i < j < directory_rows_of(t).len() ==> (#[trigger] directory_rows_of(t)[i]).path@ != (#[trigger] directory_rows_of(t)[j]).path@,
    decreases t.len(),
{
    if t.len() > 0 {
        let u = t.drop_last();
        assert(keys_sorted(u)) by {
            assert forall|i: int, j: int| 0 <= i < j < u.len() implies str_le(#[trigger] u[i].key@, #[trigger] u[j].key@) && u[i].key@ != u[j].key@ by {
                assert(u[i] == t[i]);
                assert(u[j] == t[j]);
            }
        }
        lemma_directory_rows_of(u);
        let r0 = directory_rows_of(u);
        let r = directory_rows_of(t);
        assert forall|i: int| 0 <= i < r.len() implies comes_from(t, #[trigger] r[i]) by {
            if i < r0.len() {
                assert(r[i] == r0[i]);
                let k = choose|k: int| 0 <= k < u.len() && #[trigger] u[k].key == r0[i].path && u[k].files == r0[i].files && u[k].bytes == r0[i].bytes && u[k].key@.len() > 0;
                assert(t[k] == u[k]);
            } else {
                assert(t[t.len() - 1].key == r[i].path);
            }
        }
        assert forall|k: int| 0 <= k < t.len() && (#[trigger] t[k]).key@.len() > 0 implies exists|i: int| 0 <= i < r.len() && (#[trigger] r[i]).path@ == t[k].key@ by {
            if k < u.len() {
                assert(u[k] == t[k]);
                let i = choose|i: int| 0 <= i < r0.len() && (#[trigger] r0[i]).path@ == u[k].key@;
                assert(r[i] == r0[i]);
            } else {
                assert(r[r.len() - 1].path@ == t[k].key@);
            }
        }
        assert forall|i: int, j: int| 0 <= i < j < r.len() implies (#[trigger] r[i]).path@ != (#[trigger] r[j]).path@ by {
            if j < r0.len() {
                assert(r[i] == r0[i]);
                assert(r[j] == r0[j]);
            } else if i < r0.len() {
                assert(r[i] == r0[i]);
                let k = choose|k: int| 0 <= k < u.len() && #[trigger] u[k].key == r0[i].path && u[k].files == r0[i].files && u[k].bytes == r0[i].bytes && u[k].key@.len() > 0;
                assert(t[k] == u[k]);
                assert(t[k].key@ != t[t.len() - 1].key@);
            }
        }
    }
}

fn extension_rows(t: &Vec<Tally>) -> (rows: Vec<ExtensionCount>)
    ensures
        rows@ == extension_rows_of(t@),
{
    let mut rows: Vec<ExtensionCount> = Vec::new();
    let mut i: usize = 0;
    while i < t.len()
        invariant
            i <= t@.len(),
            rows@ == extension_rows_of(t@.subrange(0, i as int)),
        decreases t.len() - i,
    {
        rows.push(ExtensionCount { extension: t[i].key.clone(), files: t[i].files });
        i += 1;
        assert(rows@ =~= extension_rows_of(t@.subrange(0, i as int)));
    }
    assert(t@.subrange(0, t@.len() as int) =~= t@);
    rows
}

fn language_rows(t: &Vec<Tally>) -> (rows: Vec<LanguageStat>)
    ensures
        rows@ == language_rows_of(t@),
{
    let mut rows: Vec<LanguageStat> = Vec::new();
    let mut i: usize = 0;
    while i < t.len()
        invariant
            i <= t@.len(),
            rows@ == language_rows_of(t@.subrange(0, i as int)),
        decreases t.len() - i,
    {
        rows.push(LanguageStat { language: t[i].key.clone(), files: t[i].files, bytes: t[i].bytes, lines: t[i].lines });
        i += 1;
        assert(rows@ =~= language_rows_of(t@.subrange(0, i as int)));
    }
    assert(t@.subrange(0, t@.len() as int) =~= t@);
    rows
}

fn directory_rows(t: &Vec<Tally>) -> (rows: Vec<DirectoryEntry>)
    ensures
        rows@ == directory_rows_of(t@),
{
    let mut rows: Vec<DirectoryEntry> = Vec::new();
    let mut i: usize = 0;
    while i < t.len()
        invariant
            i <= t@.len(),
            rows@ == directory_rows_of(t@.subrange(0, i as int)),
        decreases t.len() - i,
    {
        assert(t@.subrange(0, i + 1).drop_last() =~= t@.subrange(0, i as int));
        if !t[i].key.as_str().is_empty() {
            rows.push(DirectoryEntry { path: t[i].key.clone(), files: t[i].files, bytes: t[i].bytes });
        }
        i += 1;
    }
    assert(t@.subrange(0, t@.len() as int) =~= t@);
    rows
}

impl ScanState {
    /// The per-extension rows, ascending by extension.
    pub closed spec fn extension_rows(&self) -> Seq<ExtensionCount> {
        extension_rows_of(self.extensions@)
    }

    /// The per-language rows, before ordering by size.
    pub closed spec fn language_rows(&self) -> Seq<LanguageStat> {
        language_rows_of(self.languages@)
    }

    /// The per-directory rows, the root left out, before ordering by size.
    pub closed spec fn directory_rows(&self) -> Seq<DirectoryEntry> {
        directory_rows_of(self.directories@)
    }

    /// The root's aggregate: every counted file, all bytes.
    pub closed spec fn root_totals(&self) -> (nat, nat) {
        (files_at(self.directories@, Seq::<char>::empty()), bytes_at(self.directories@, Seq::<char>::empty()))
    }

    /// What the rows and entries say, in terms of the recorded files.
    pub proof fn lemma_rows(&self)
        requires
            self.wf(),
        ensures
            describes_extensions(self.extension_rows(), self.history()),
            describes_languages(self.language_rows(), self.history()),
            describes_directories(self.directory_rows(), self.history()),
            describes_entries(self.entries(), self.history()),
            self.root_totals() == (count_under(TableKind::Directory, self.history(), Seq::<char>::empty()),
                bytes_under(TableKind::Directory, self.history(), Seq::<char>::empty())),
            paths_distinct(self.history()),
            unreadable_files_warned(self.history(), self.warnings(), self.root()),
    {
        let h = self.history@;
        lemma_directory_rows(self.directories@, h);
        let e = self.extensions@;
        let er = extension_rows_of(e);
        assert forall|i: int| 0 <= i < er.len() implies (#[trigger] er[i]).files == count_under(TableKind::Extension, h, er[i].extension@)
            && er[i].files > 0 by {
            tally::lemma_row(e, i);
            assert(has_key(e, e[i].key@));
        }
        assert forall|x: Seq<char>| count_under(TableKind::Extension, h, x) > 0 implies exists|i: int| 0 <= i < er.len() && (#[trigger] er[i]).extension@ == x by {
            let k = lemma_row_present(e, TableKind::Extension, h, x);
            assert(er[k].extension@ == x);
        }
        let l = self.languages@;
        let lr = language_rows_of(l);
        assert forall|i: int| 0 <= i < lr.len() implies (#[trigger] lr[i]).files == count_under(TableKind::Language, h, lr[i].language@)
            && lr[i].bytes == bytes_under(TableKind::Language, h, lr[i].language@)
            && lr[i].lines == lines_under(TableKind::Language, h, lr[i].language@)
            && lr[i].files > 0 by {
            tally::lemma_row(l, i);
            assert(has_key(l, l[i].key@));
        }
        assert forall|x: Seq<char>| count_under(TableKind::Language, h, x) > 0 implies exists|i: int| 0 <= i < lr.len() && (#[trigger] lr[i]).language@ == x by {
            let k = lemma_row_present(l, TableKind::Language, h, x);
            assert(lr[k].language@ == x);
        }
        assert forall|i: int, j: int| 0 <= i < j < lr.len() implies (#[trigger] lr[i]).language@ != (#[trigger] lr[j]).language@ by {
            assert(l[i].key@ != l[j].key@);
        }
    }
}

/// The report a scan produces from the walk's state and the other analyses.
pub open spec fn report_matches(
    report: ScanReport,
    state: ScanState,
    git: (Analysis<GitStatus>, Analysis<GitActivity>),
    cargo: (Analysis<CargoManifest>, Analysis<CargoLock>),
) -> bool {
    let h = state.history();
    &&& report.files == h.len()
    &&& report.bytes == total_bytes(h)
    &&& report.by_extension@ == state.extension_rows()
    &&& report.by_language@ == sort::sorted(state.language_rows())
    &&& report.largest_files@ == sort::sorted(state.entries())
    &&& report.largest_directories@ == sort::sorted(state.directory_rows())
    &&& report.lines == if state.counts_lines() {
        Analysis::Ran(
            LineCounts {
                lines: total_lines(h) as u64,
                text_files: count_content(h, |c: Option<FileText>| is_text(c)) as usize,
                binary_files: count_content(h, |c: Option<FileText>| is_binary(c)) as usize,
                unreadable_files: count_content(h, |c: Option<FileText>| is_unreadable(c)) as usize,
            },
        )
    } else {
        Analysis::NotEvaluated(NotEvaluated::Disabled)
    }
    &&& report.git_status == git.0
    &&& report.git_activity == git.1
    &&& report.cargo_manifest == cargo.0
    &&& report.cargo_lock == cargo.1
    &&& report.warnings@ == state.warnings()
}

/// With no file's content read, no key has any lines.
proof fn lemma_no_lines(kind: TableKind, h: Seq<RecordedFile>, x: Seq<char>)
    requires
        forall|i: int| 0 <= i < h.len() ==> (#[trigger] h[i]).content is None,
    ensures
        lines_under(kind, h, x) == 0,
    decreases h.len(),
{
    if h.len() > 0 {
        assert(h.last() == h[h.len() - 1]);
        assert forall|i: int| 0 <= i < h.drop_last().len() implies (#[trigger] h.drop_last()[i]).content is None by {
            assert(h.drop_last()[i] == h[i]);
        }
        lemma_no_lines(kind, h.drop_last(), x);
    }
}

/// With every file's content read, every file is text, binary, or
/// unreadable.
proof fn lemma_every_file_classified(h: Seq<RecordedFile>)
    requires
        forall|i: int| 0 <= i < h.len() ==> (#[trigger] h[i]).content is Some,
    ensures
        count_content(h, |c: Option<FileText>| is_text(c)) + count_content(h, |c: Option<FileText>| is_binary(c))
            + count_content(h, |c: Option<FileText>| is_unreadable(c)) == h.len(),
    decreases h.len(),
{
    if h.len() > 0 {
        assert(h.last() == h[h.len() - 1]);
        assert forall|i: int| 0 <= i < h.drop_last().len() implies (#[trigger] h.drop_last()[i]).content is Some by {
            assert(h.drop_last()[i] == h[i]);
        }
        lemma_every_file_classified(h.drop_last());
    }
}

/// The report's lists are strictly ordered and name nothing twice:
/// languages by bytes, largest first, then by name; directories by bytes,
/// then by path, none of them the root; and files the same way.
pub proof fn report_lists_are_strictly_ordered(
    report: ScanReport,
    state: ScanState,
    git: (Analysis<GitStatus>, Analysis<GitActivity>),
    cargo: (Analysis<CargoManifest>, Analysis<CargoLock>),
)
    requires
        state.wf(),
        report_matches(report, state, git, cargo),
    ensures
        forall|i: int, j: int| 0 <= i < j < report.by_language@.len() ==> {
            let (a, b) = (#[trigger] report.by_language@[i], #[trigger] report.by_language@[j]);
            a.bytes > b.bytes || (a.bytes == b.bytes && str_le(a.language@, b.language@) && a.language@ != b.language@)
        },
        forall|i: int, j: int| 0 <= i < j < report.largest_directories@.len() ==> {
            let (a, b) = (#[trigger] report.largest_directories@[i], #[trigger] report.largest_directories@[j]);
            a.bytes > b.bytes || (a.bytes == b.bytes && path_le(a.path@, b.path@) && a.path@ != b.path@)
        },
        forall|i: int| 0 <= i < report.largest_directories@.len() ==> (#[trigger] report.largest_directories@[i]).path@.len() > 0,
        forall|i: int, j: int| 0 <= i < j < report.largest_files@.len() ==> {
            let (a, b) = (#[trigger] report.largest_files@[i], #[trigger] report.largest_files@[j]);
            a.bytes > b.bytes || (a.bytes == b.bytes && path_le(a.path@, b.path@) && a.path@ != b.path@)
        },
{
    broadcast use vstd::seq_lib::group_to_multiset_ensures;

    state.lemma_rows();
    let h = state.history();
    let languages = state.language_rows();
    let directories = state.directory_rows();
    let entries = state.entries();
    sort::lemma_sorted(languages);
    sort::lemma_sorted(directories);
    sort::lemma_sorted(entries);
    sort::lemma_sorted_keys_distinct(languages, |x: LanguageStat| x.language@);
    sort::lemma_sorted_keys_distinct(directories, |x: DirectoryEntry| x.path@);
    let sl = sort::sorted(languages);
    let sd = sort::sorted(directories);
    assert forall|i: int, j: int| 0 <= i < j < sl.len() implies {
        let (a, b) = (#[trigger] sl[i], #[trigger] sl[j]);
        a.bytes > b.bytes || (a.bytes == b.bytes && str_le(a.language@, b.language@) && a.language@ != b.language@)
    } by {
        assert(sl[i].ranks_before(sl[j]));
        assert((|x: LanguageStat| x.language@)(sl[i]) != (|x: LanguageStat| x.language@)(sl[j]));
    }
    assert forall|i: int, j: int| 0 <= i < j < sd.len() implies {
        let (a, b) = (#[trigger] sd[i], #[trigger] sd[j]);
        a.bytes > b.bytes || (a.bytes == b.bytes && path_le(a.path@, b.path@) && a.path@ != b.path@)
    } by {
        assert(sd[i].ranks_before(sd[j]));
        assert((|x: DirectoryEntry| x.path@)(sd[i]) != (|x: DirectoryEntry| x.path@)(sd[j]));
    }
    assert forall|i: int| 0 <= i < report.largest_directories@.len() implies (#[trigger] report.largest_directories@[i]).path@.len() > 0 by {
        let x = report.largest_directories@[i];
        assert(sort::sorted(directories).contains(x));
        assert(sort::sorted(directories).to_multiset().count(x) > 0);
        assert(directories.contains(x));
    }
    {
        assert forall|i: int, j: int| 0 <= i < j < entries.len() implies (#[trigger] entries[i]).path@ != (
        #[trigger] entries[j]).path@ by {
            assert(h[i].path != h[j].path);
        }
        sort::lemma_sorted_keys_distinct(entries, |x: FileEntry| x.path@);
        let sf = sort::sorted(entries);
        assert forall|i: int, j: int| 0 <= i < j < sf.len() implies {
            let (a, b) = (#[trigger] sf[i], #[trigger] sf[j]);
            a.bytes > b.bytes || (a.bytes == b.bytes && path_le(a.path@, b.path@) && a.path@ != b.path@)
        } by {
            assert(sf[i].ranks_before(sf[j]));
            assert((|x: FileEntry| x.path@)(sf[i]) != (|x: FileEntry| x.path@)(sf[j]));
        }
    }
}

/// What kind of failure stopped a scan before it began.
#[derive(Debug, Clone, Copy, PartialEq, Eq, Structural)]
pub enum ScanErrorKind {
    /// The root does not exist, or is not a directory.
    NotFound,
}

/// Why a scan could not be made: its kind, and a message naming the root.
#[derive(Debug, Clone, PartialEq, Eq)]
pub struct ScanError {
    pub kind: ScanErrorKind,
    pub message: String,
}

/// Turns a finished walk into the report: `root` is how the scanned
/// directory is named, and `root_is_directory` whether it is one. A root that
/// is not a directory is a `NotFound` error naming it; nothing is reported
/// for it.
///
/// Files are listed largest first, then in path order; directories the same
/// way, the root left out, since it is trivially first; languages largest
/// first, then by name; extensions in ascending order.
pub fn scan(
    root: &str,
    root_is_directory: bool,
    state: ScanState,
    git: (Analysis<GitStatus>, Analysis<GitActivity>),
    cargo: (Analysis<CargoManifest>, Analysis<CargoLock>),
) -> (result: Result<ScanReport, ScanError>)
    requires
        state.wf(),
        state.root() == root@,
    ensures
        !root_is_directory ==> result is Err && result->Err_0.kind == ScanErrorKind::NotFound
            && result->Err_0.message@ == root@ + " is not a directory"@,
        root_is_directory ==> result is Ok && report_matches(result->Ok_0, state, git, cargo),
        root_is_directory && !state.counts_lines() ==> forall|i: int|
            0 <= i < result->Ok_0.by_language@.len() ==> (#[trigger] result->Ok_0.by_language@[i]).lines == 0,
        root_is_directory && state.counts_lines() ==> (result->Ok_0.lines matches Analysis::Ran(counts)
            && counts.text_files + counts.binary_files + counts.unreadable_files == result->Ok_0.files
            && counts.lines == sort::sum_by(result->Ok_0.by_language@, |row: LanguageStat| row.lines as nat)),
        root_is_directory ==> forall|i: int|
            0 <= i < state.history().len() && (#[trigger] state.history()[i]).content == Some(FileText::Unreadable)
                ==> exists|j: int|
                0 <= j < result->Ok_0.warnings@.len() && (#[trigger] result->Ok_0.warnings@[j]).path@ == text::joined(
                    root@,
                    state.history()[i].path,
                ) && result->Ok_0.warnings@[j].message@ == unreadable_message(),
        describes_extensions(state.extension_rows(), state.history()),
        describes_languages(state.language_rows(), state.history()),
        describes_directories(state.directory_rows(), state.history()),
        describes_entries(state.entries(), state.history()),
{
    proof {
        state.lemma_rows();
        let h = state.history();
        report_totals_reconcile(state);
        if state.counts_lines() {
            lemma_every_file_classified(h);
        } else {
            let rows = state.language_rows();
            assert forall|i: int| 0 <= i < rows.len() implies (#[trigger] rows[i]).lines == 0 by {
                lemma_no_lines(TableKind::Language, h, rows[i].language@);
            }
            sort::lemma_sorted(rows);
            assert forall|i: int| 0 <= i < sort::sorted(rows).len() implies (#[trigger] sort::sorted(rows)[i]).lines == 0 by {
                let x = sort::sorted(rows)[i];
                assert(sort::sorted(rows).to_multiset().count(x) > 0) by {
                    broadcast use vstd::seq_lib::group_to_multiset_ensures;
                    assert(sort::sorted(rows).contains(x));
                }
                assert(rows.contains(x)) by {
                    broadcast use vstd::seq_lib::group_to_multiset_ensures;
                }
            }
        }
    }
    if !root_is_directory {
        let mut message = text::owned(root);
        text::push_str(&mut message, " is not a directory");
        return Err(ScanError { kind: ScanErrorKind::NotFound, message });
    }
    let ghost st = state;
    let lines = if state.count_lines {
        Analysis::Ran(state.line_counts)
    } else {
        Analysis::NotEvaluated(NotEvaluated::Disabled)
    };
    let by_extension = extension_rows(&state.extensions);
    let by_language = sort::sort(language_rows(&state.languages));
    let largest_directories = sort::sort(directory_rows(&state.directories));
    let ScanState { entries, warnings, files, bytes, .. } = state;
    let largest_files = sort::sort(entries);
    let (git_status, git_activity) = git;
    let (cargo_manifest, cargo_lock) = cargo;
    let report = ScanReport {
        files,
        bytes,
        by_extension,
        by_language,
        largest_files,
        largest_directories,
        lines,
        git_status,
        git_activity,
        cargo_manifest,
        cargo_lock,
        warnings,
    };
    proof {
        let h = st.history();
        assert forall|i: int|
            0 <= i < h.len() && (#[trigger] h[i]).content == Some(FileText::Unreadable) implies exists|j: int|
            0 <= j < report.warnings@.len() && (#[trigger] report.warnings@[j]).path@ == text::joined(root@, h[i].path)
                && report.warnings@[j].message@ == unreadable_message() by {
            let j = choose|j: int| 0 <= j < st.warnings().len() && (#[trigger] st.warnings()[j]).path@ == text::joined(
                st.root(),
                h[i].path,
            ) && st.warnings()[j].message@ == unreadable_message();
            assert(report.warnings@[j] == st.warnings()[j]);
        }
    }
    Ok(report)
}

/// The root directory's aggregate is the whole scan: every counted file lies
/// below the root, so its totals are the report's file and byte totals.
pub proof fn root_aggregate_is_the_total(h: Seq<RecordedFile>)
    requires
        forall|i: int| 0 <= i < h.len() ==> (#[trigger] h[i]).path.len() > 0,
    ensures
        count_under(TableKind::Directory, h, Seq::<char>::empty()) == h.len(),
        bytes_under(TableKind::Directory, h, Seq::<char>::empty()) == total_bytes(h),
    decreases h.len(),
{
    if h.len() > 0 {
        assert forall|i: int| 0 <= i < h.drop_last().len() implies (#[trigger] h.drop_last()[i]).path.len() > 0 by {
            assert(h.drop_last()[i] == h[i]);
        }
        root_aggregate_is_the_total(h.drop_last());
        assert(h[h.len() - 1].path.len() > 0);
    }
}

proof fn lemma_language_rows_sums(t: Seq<Tally>)
    ensures
        sort::sum_by(language_rows_of(t), |row: LanguageStat| row.bytes as nat) == tally::total_bytes(t),
        sort::sum_by(language_rows_of(t), |row: LanguageStat| row.files as nat) == tally::total_files(t),
        sort::sum_by(language_rows_of(t), |row: LanguageStat| row.lines as nat) == tally::total_lines(t),
    decreases t.len(),
{
    if t.len() > 0 {
        lemma_language_rows_sums(t.drop_last());
        let last = LanguageStat { language: t.last().key, files: t.last().files, bytes: t.last().bytes, lines: t.last().lines };
        assert(language_rows_of(t) =~= language_rows_of(t.drop_last()).push(last));
        sort::lemma_sum_by_push(language_rows_of(t.drop_last()), last, |row: LanguageStat| row.bytes as nat);
        sort::lemma_sum_by_push(language_rows_of(t.drop_last()), last, |row: LanguageStat| row.files as nat);
        sort::lemma_sum_by_push(language_rows_of(t.drop_last()), last, |row: LanguageStat| row.lines as nat);
    } else {
        assert(language_rows_of(t) =~= Seq::<LanguageStat>::empty());
    }
}

proof fn lemma_extension_rows_sum(t: Seq<Tally>)
    ensures
        sort::sum_by(extension_rows_of(t), |row: ExtensionCount| row.files as nat) == tally::total_files(t),
    decreases t.len(),
{
    if t.len() > 0 {
        lemma_extension_rows_sum(t.drop_last());
        let last = ExtensionCount { extension: t.last().key, files: t.last().files };
        assert(extension_rows_of(t) =~= extension_rows_of(t.drop_last()).push(last));
        sort::lemma_sum_by_push(extension_rows_of(t.drop_last()), last, |row: ExtensionCount| row.files as nat);
    } else {
        assert(extension_rows_of(t) =~= Seq::<ExtensionCount>::empty());
    }
}

/// The report reconciles: the per-language byte, file and line totals, and
/// the per-extension file counts, add up to the report's own totals, and the
/// root aggregate (left out of the directory list) is the whole scan.
pub proof fn report_totals_reconcile(state: ScanState)
    requires
        state.wf(),
    ensures
        sort::sum_by(sort::sorted(state.language_rows()), |row: LanguageStat| row.bytes as nat)
            == total_bytes(state.history()),
        sort::sum_by(sort::sorted(state.language_rows()), |row: LanguageStat| row.files as nat)
            == state.history().len(),
        sort::sum_by(sort::sorted(state.language_rows()), |row: LanguageStat| row.lines as nat)
            == total_lines(state.history()),
        sort::sum_by(state.extension_rows(), |row: ExtensionCount| row.files as nat)
            == state.history().len(),
        state.root_totals() == (state.history().len(), total_bytes(state.history())),
{
    lemma_language_rows_sums(state.languages@);
    lemma_extension_rows_sum(state.extensions@);
    sort::lemma_sum_by_sorted(state.language_rows(), |row: LanguageStat| row.bytes as nat);
    sort::lemma_sum_by_sorted(state.language_rows(), |row: LanguageStat| row.files as nat);
    sort::lemma_sum_by_sorted(state.language_rows(), |row: LanguageStat| row.lines as nat);
    state.lemma_rows();
    root_aggregate_is_the_total(state.history());
}
} // verus!
