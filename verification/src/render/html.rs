//! The standalone HTML dashboard, and [`Html`], the sole route from untrusted
//! text into rendered markup.
//!
//! The document is a single self-contained file: the stylesheet is inlined
//! and no request leaves the machine. Every value drawn from repository
//! content passes through [`Html::escape`] before it reaches the page, which
//! keeps a hostile file name from becoming markup.
use vstd::prelude::*;

use crate::render::{bytes_text, format_bytes, percent_text, percentage_text};
use crate::text::{self, decimal};
use crate::{display_path, sanitized, Analysis, DirectoryEntry, FileEntry, LanguageStat, ScanReport, ScanWarning};

verus! {

/// What escaping makes of one character: the five characters markup gives a
/// meaning to become entities; every other character stays.
pub open spec fn escape_char(c: char) -> Seq<char> {
    if c == '&' {
        "&amp;"@
    } else if c == '<' {
        "&lt;"@
    } else if c == '>' {
        "&gt;"@
    } else if c == '"' {
        "&quot;"@
    } else if c == '\'' {
        "&#39;"@
    } else {
        seq![c]
    }
}

/// `text` with each character escaped.
pub open spec fn escaped(text: Seq<char>) -> Seq<char>
    decreases text.len(),
{
    if text.len() == 0 {
        seq![]
    } else {
        escaped(text.drop_last()) + escape_char(text.last())
    }
}

/// A character that would be read as markup.
pub open spec fn is_markup_char(c: char) -> bool {
    c == '<' || c == '>' || c == '"' || c == '\''
}

/// Escaped text holds no character that would be read as markup: no tag can
/// open and no attribute can close.
pub proof fn escaped_text_is_inert(text: Seq<char>)
    ensures
        forall|i: int| 0 <= i < escaped(text).len() ==> !is_markup_char(#[trigger] escaped(text)[i]),
    decreases text.len(),
{
    reveal_strlit("&amp;");
    reveal_strlit("&lt;");
    reveal_strlit("&gt;");
    reveal_strlit("&quot;");
    reveal_strlit("&#39;");
    if text.len() > 0 {
        escaped_text_is_inert(text.drop_last());
        let head = escaped(text.drop_last());
        let tail = escape_char(text.last());
        assert forall|i: int| 0 <= i < escaped(text).len() implies !is_markup_char(#[trigger] escaped(text)[i]) by {
            if i < head.len() {
                assert(escaped(text)[i] == head[i]);
            } else {
                assert(escaped(text)[i] == tail[i - head.len()]);
            }
        }
    }
}

/// Reading markup text back: each of the five entities that escaping
/// writes becomes its character again, `&amp;` included, and every other
/// character stays.
pub open spec fn unescaped(s: Seq<char>) -> Seq<char>
    decreases s.len(),
{
    if s.len() == 0 {
        seq![]
    } else if s.len() >= 5 && s.subrange(0, 5) == "&amp;"@ {
        seq!['&'] + unescaped(s.subrange(5, s.len() as int))
    } else if s.len() >= 4 && s.subrange(0, 4) == "&lt;"@ {
        seq!['<'] + unescaped(s.subrange(4, s.len() as int))
    } else if s.len() >= 4 && s.subrange(0, 4) == "&gt;"@ {
        seq!['>'] + unescaped(s.subrange(4, s.len() as int))
    } else if s.len() >= 6 && s.subrange(0, 6) == "&quot;"@ {
        seq!['"'] + unescaped(s.subrange(6, s.len() as int))
    } else if s.len() >= 5 && s.subrange(0, 5) == "&#39;"@ {
        seq!['\''] + unescaped(s.subrange(5, s.len() as int))
    } else {
        seq![s[0]] + unescaped(s.drop_first())
    }
}

proof fn lemma_escaped_concat(a: Seq<char>, b: Seq<char>)
    ensures
        escaped(a + b) == escaped(a) + escaped(b),
    decreases b.len(),
{
    if b.len() > 0 {
        lemma_escaped_concat(a, b.drop_last());
        assert((a + b).drop_last() =~= a + b.drop_last());
        assert((a + b).last() == b.last());
        assert(escaped(a) + escaped(b.drop_last()) + escape_char(b.last()) =~= escaped(a) + escaped(b));
    }
}

proof fn lemma_unescape_step(c: char, rest: Seq<char>)
    ensures
        unescaped(escape_char(c) + rest) == seq![c] + unescaped(rest),
{
    reveal_strlit("&amp;");
    reveal_strlit("&lt;");
    reveal_strlit("&gt;");
    reveal_strlit("&quot;");
    reveal_strlit("&#39;");
    let e = escape_char(c);
    let s = e + rest;
    assert(s.subrange(e.len() as int, s.len() as int) =~= rest);
    assert(s.subrange(0, e.len() as int) =~= e);
    assert(s[0] == e[0]);
    if e.len() >= 2 {
        assert(s[1] == e[1]);
    }
    if s.len() >= 4 {
        assert(s.subrange(0, 4)[0] == s[0] && s.subrange(0, 4)[1] == s[1]);
    }
    if s.len() >= 5 {
        assert(s.subrange(0, 5)[0] == s[0] && s.subrange(0, 5)[1] == s[1]);
    }
    if s.len() >= 6 {
        assert(s.subrange(0, 6)[0] == s[0] && s.subrange(0, 6)[1] == s[1]);
    }
    if c != '&' && c != '<' && c != '>' && c != '"' && c != '\'' {
        assert(s.drop_first() =~= rest);
    }
}

/// Reading escaped text back gives the text: escaping loses nothing.
pub proof fn unescaping_gives_back_the_text(text: Seq<char>)
    ensures
        unescaped(escaped(text)) == text,
    decreases text.len(),
{
    if text.len() > 0 {
        let rest = text.drop_first();
        lemma_escaped_concat(seq![text[0]], rest);
        assert(seq![text[0]] + rest =~= text);
        assert(seq![text[0]].drop_last() =~= Seq::<char>::empty());
        assert(seq![text[0]].last() == text[0]);
        assert(escaped(Seq::<char>::empty()) == Seq::<char>::empty());
        assert(Seq::<char>::empty() + escape_char(text[0]) =~= escape_char(text[0]));
        assert(escaped(seq![text[0]]) == escape_char(text[0]));
        lemma_unescape_step(text[0], escaped(rest));
        unescaping_gives_back_the_text(rest);
    }
}

/// Escaping keeps every character that means nothing to markup, and so
/// leaves plain text unchanged.
pub proof fn escaping_keeps_plain_text(text: Seq<char>)
    requires
        forall|i: int| 0 <= i < text.len() ==> !is_markup_char(#[trigger] text[i]) && text[i] != '&',
    ensures
        escaped(text) == text,
    decreases text.len(),
{
    if text.len() > 0 {
        assert forall|i: int| 0 <= i < text.drop_last().len() implies !is_markup_char(
            #[trigger] text.drop_last()[i],
        ) && text.drop_last()[i] != '&' by {
            assert(text.drop_last()[i] == text[i]);
        }
        escaping_keeps_plain_text(text.drop_last());
        assert(text.drop_last() + seq![text.last()] =~= text);
    }
}

/// A fragment of HTML that is safe to emit.
///
/// The only route from untrusted text to `Html` is [`Html::escape`], which
/// escapes on construction. Program-authored markup enters through
/// [`Html::from_static`], which requires a `&'static str`: a value derived
/// from repository content is never `'static`, so it cannot take that path.
#[derive(Debug, Clone, PartialEq, Eq)]
pub struct Html(String);

impl View for Html {
    type V = Seq<char>;

    closed spec fn view(&self) -> Seq<char> {
        self.0@
    }
}

impl Default for Html {
    fn default() -> (html: Self)
        ensures
            html@.len() == 0,
    {
        Html(String::new())
    }
}

fn push_escaped_chars(out: &mut String, text: &str)
    ensures
        final(out)@ == old(out)@ + escaped(text@),
{
    let chars = text::chars_of(text);
    let mut i: usize = 0;
    while i < chars.len()
        invariant
            i <= chars@.len(),
            chars@ == text@,
            out@ == old(out)@ + escaped(chars@.subrange(0, i as int)),
        decreases chars.len() - i,
    {
        let c = chars[i];
        if c == '&' {
            text::push_str(out, "&amp;");
        } else if c == '<' {
            text::push_str(out, "&lt;");
        } else if c == '>' {
            text::push_str(out, "&gt;");
        } else if c == '"' {
            text::push_str(out, "&quot;");
        } else if c == '\'' {
            text::push_str(out, "&#39;");
        } else {
            out.push(c);
        }
        proof {
            let done = chars@.subrange(0, i + 1);
            assert(done.drop_last() =~= chars@.subrange(0, i as int));
            assert(out@ =~= old(out)@ + escaped(done));
        }
        i += 1;
    }
    assert(chars@.subrange(0, chars@.len() as int) =~= chars@);
}

impl Html {
    /// Escapes untrusted text: `&`, `<`, `>`, `"` and `'` become entities.
    /// Text that already holds entities is escaped again, not recognized.
    pub fn escape(text: &str) -> (html: Self)
        ensures
            html@ == escaped(text@),
    {
        let mut out = String::new();
        push_escaped_chars(&mut out, text);
        Html(out)
    }

    /// Markup the program itself authored.
    pub fn from_static(markup: &'static str) -> (html: Self)
        ensures
            html@ == markup@,
    {
        Html(text::owned(markup))
    }

    /// A number. Always safe; no escaping is possible or needed.
    pub fn number(value: u64) -> (html: Self)
        ensures
            html@ == decimal(value as nat),
    {
        Html(text::decimal_string(value as u128))
    }

    /// Appends already-safe markup.
    pub fn push(&mut self, other: &Html)
        ensures
            final(self)@ == old(self)@ + other@,
    {
        text::push_str(&mut self.0, other.0.as_str());
    }

    /// Appends markup the program itself authored.
    pub fn push_static(&mut self, markup: &'static str)
        ensures
            final(self)@ == old(self)@ + markup@,
    {
        text::push_str(&mut self.0, markup);
    }

    /// Escapes `text` and appends it.
    pub fn push_escaped(&mut self, text: &str)
        ensures
            final(self)@ == old(self)@ + escaped(text@),
    {
        push_escaped_chars(&mut self.0, text);
    }

    pub fn as_str(&self) -> (markup: &str)
        ensures
            markup@ == self@,
    {
        self.0.as_str()
    }

    pub fn is_empty(&self) -> (empty: bool)
        ensures
            empty == (self@.len() == 0),
    {
        self.0.as_str().is_empty()
    }
}


/// The version the dashboard's footer names.
pub const PACKAGE_VERSION: &'static str = "0.1.0";

/// The dashboard's stylesheet, inlined so the page makes no request.
pub const STYLE: &'static str = ":root{color-scheme:light dark;--ink:#1d2430;--muted:#5b6577;--line:#d9dee7;--panel:#ffffff;--page:#f3f5f9;--accent:#2f6fdf}
*{box-sizing:border-box}
body{margin:0;background:var(--page);color:var(--ink);font:15px/1.5 system-ui,-apple-system,Segoe UI,sans-serif}
main{max-width:1100px;margin:0 auto;padding:32px 20px}
header{display:flex;justify-content:space-between;align-items:flex-start;gap:16px;margin-bottom:24px}
h1{margin:0;font-size:28px}
h2{margin:0 0 12px;font-size:17px}
.eyebrow{color:var(--muted);font-size:12px;letter-spacing:.08em;text-transform:uppercase}
.path{margin:4px 0 0;color:var(--muted);word-break:break-all}
.badge{border:1px solid var(--line);border-radius:999px;padding:4px 10px;font-size:12px;color:var(--muted)}
.stats{display:grid;grid-template-columns:repeat(auto-fit,minmax(180px,1fr));gap:12px;margin-bottom:20px}
.stat,.panel{background:var(--panel);border:1px solid var(--line);border-radius:10px;padding:16px}
.stat strong{display:block;font-size:22px}
.stat span{color:var(--muted);font-size:13px}
.grid{display:grid;grid-template-columns:repeat(auto-fit,minmax(320px,1fr));gap:16px}
.panel-wide{grid-column:1/-1}
.bar-row{display:grid;grid-template-columns:140px 1fr 90px;gap:10px;align-items:center;margin:6px 0}
.bar-label{overflow:hidden;text-overflow:ellipsis;white-space:nowrap}
.bar-track{background:var(--page);border-radius:4px;height:10px;overflow:hidden}
.bar{display:block;height:100%;background:var(--accent)}
table{width:100%;border-collapse:collapse}
th,td{text-align:left;padding:6px 4px;border-bottom:1px solid var(--line)}
td:last-child,th:last-child{text-align:right;white-space:nowrap}
code{word-break:break-all}
.empty{color:var(--muted)}
.warning{margin:6px 0}
footer{margin-top:24px;color:var(--muted);font-size:12px}
";

pub const DOC_HEAD: &'static str = "<!doctype html>\n<html lang=\"en\">\n<head>\n<meta charset=\"utf-8\">\n<meta name=\"viewport\" content=\"width=device-width, initial-scale=1\">\n<title>Repo Radar | ";
pub const TITLE_END: &'static str = "</title>\n<style>\n";
pub const STYLE_END: &'static str = "</style>\n</head>\n<body>\n<main>\n<header><div><div class=\"eyebrow\">Repository observatory</div><h1>Repo Radar</h1><p class=\"path\">";
pub const HEADER_END: &'static str = "</p></div><div class=\"badge\">READ-ONLY SCAN</div></header>\n<section class=\"stats\" aria-label=\"Repository totals\">\n<div class=\"stat\"><strong>";
pub const FILES_STAT_END: &'static str = "</strong><span>files inventoried</span></div>\n<div class=\"stat\"><strong>";
pub const SIZE_STAT_END: &'static str = "</strong><span>total size</span></div>\n<div class=\"stat\"><strong>";
pub const EXTENSIONS_STAT_END: &'static str = "</strong><span>extensions detected</span></div>\n<div class=\"stat\"><strong>";
pub const LINES_STAT_END: &'static str = "</strong><span>lines counted</span></div>\n</section>\n<section class=\"grid\">\n<article class=\"panel\"><h2>Composition</h2>";
pub const NOT_EVALUATED: &'static str = "not evaluated";
pub const BAR_OPEN: &'static str = "<div class=\"bar-row\"><span class=\"bar-label\">";
pub const BAR_LABEL_END: &'static str = "</span><span class=\"bar-track\"><span class=\"bar\" style=\"width:";
pub const BAR_WIDTH_END: &'static str = "%\"></span></span><strong>";
pub const BAR_END: &'static str = "</strong></div>";
pub const NO_FILES: &'static str = "<p class=\"empty\">No files found.</p>";
pub const FILES_PANEL: &'static str = "</article><article class=\"panel\"><h2>Largest files</h2>";
pub const TABLE_OPEN: &'static str = "<table><thead><tr><th>Path</th><th>Size</th></tr></thead><tbody>";
pub const ROW_OPEN: &'static str = "<tr><td><code>";
pub const ROW_PATH_END: &'static str = "</code></td><td>";
pub const ROW_END: &'static str = "</td></tr>";
pub const TABLE_END: &'static str = "</tbody></table>";
pub const DIRECTORIES_PANEL: &'static str = "</article><article class=\"panel panel-wide\"><h2>Largest directories (aggregate, including subdirectories)</h2>";
pub const NOTES_PANEL: &'static str = "</article><article class=\"panel panel-wide\"><h2>Scan notes</h2>";
pub const NO_WARNINGS: &'static str = "<p class=\"empty\">No warnings. The scan completed cleanly.</p>";
pub const WARNING_OPEN: &'static str = "<p class=\"warning\"><code>";
pub const WARNING_PATH_END: &'static str = "</code>: ";
pub const WARNING_END: &'static str = "</p>";
pub const FOOTER_OPEN: &'static str = "</article></section><footer>Generated by Repo Radar ";
pub const FOOTER_END: &'static str = ". This report contains no external assets or requests.</footer></main></body></html>";

/// The document's head and header, naming the repository twice.
#[verifier::opaque]
pub open spec fn head_markup(repository: Seq<char>) -> Seq<char> {
    DOC_HEAD@ + repository + TITLE_END@ + STYLE@ + STYLE_END@ + repository + HEADER_END@
}

/// The totals: files, size, extensions, and lines or that they were not
/// counted.
#[verifier::opaque]
pub open spec fn stats_markup(report: ScanReport) -> Seq<char> {
    decimal(report.files as nat) + FILES_STAT_END@ + escaped(bytes_text(report.bytes as nat)) + SIZE_STAT_END@
        + decimal(report.by_extension@.len()) + EXTENSIONS_STAT_END@ + match report.lines {
        Analysis::Ran(counts) => decimal(counts.lines as nat),
        Analysis::NotEvaluated(_) => NOT_EVALUATED@,
    } + LINES_STAT_END@
}

/// The byte count the bars are measured against: the most bytes any
/// language has, and at least one.
pub open spec fn largest_bytes(languages: Seq<LanguageStat>) -> nat
    decreases languages.len(),
{
    if languages.len() == 0 {
        1
    } else {
        let rest = largest_bytes(languages.drop_last());
        if languages.last().bytes > rest {
            languages.last().bytes as nat
        } else {
            rest
        }
    }
}

/// One language's bar, as wide as its share of `largest` bytes.
pub open spec fn bar_markup(language: LanguageStat, largest: nat) -> Seq<char> {
    BAR_OPEN@ + escaped(language.language@) + BAR_LABEL_END@ + escaped(percent_text(language.bytes as nat, largest))
        + BAR_WIDTH_END@ + escaped(bytes_text(language.bytes as nat)) + BAR_END@
}

pub open spec fn bars_markup(languages: Seq<LanguageStat>, largest: nat) -> Seq<char>
    decreases languages.len(),
{
    if languages.len() == 0 {
        seq![]
    } else {
        bars_markup(languages.drop_last(), largest) + bar_markup(languages.last(), largest)
    }
}

/// The composition panel: a bar per language, its width the language's
/// bytes as a share of the largest language's, or that there are no files.
#[verifier::opaque]
pub open spec fn composition_markup(report: ScanReport) -> Seq<char> {
    bars_markup(report.by_language@, largest_bytes(report.by_language@)) + if report.by_language@.len() == 0 {
        NO_FILES@
    } else {
        seq![]
    }
}

/// A table row: a path, sanitized then escaped, and a size.
pub open spec fn path_row(path: Seq<char>, bytes: u64) -> Seq<char> {
    ROW_OPEN@ + escaped(sanitized(path)) + ROW_PATH_END@ + escaped(bytes_text(bytes as nat)) + ROW_END@
}

pub open spec fn file_rows_markup(files: Seq<FileEntry>) -> Seq<char>
    decreases files.len(),
{
    if files.len() == 0 {
        seq![]
    } else {
        file_rows_markup(files.drop_last()) + path_row(files.last().path@, files.last().bytes)
    }
}

pub open spec fn directory_rows_markup(directories: Seq<DirectoryEntry>) -> Seq<char>
    decreases directories.len(),
{
    if directories.len() == 0 {
        seq![]
    } else {
        directory_rows_markup(directories.drop_last()) + path_row(
            directories.last().path@,
            directories.last().bytes,
        )
    }
}

#[verifier::opaque]
pub open spec fn files_markup(report: ScanReport) -> Seq<char> {
    FILES_PANEL@ + if report.largest_files@.len() == 0 {
        NO_FILES@
    } else {
        TABLE_OPEN@ + file_rows_markup(report.largest_files@) + TABLE_END@
    }
}

#[verifier::opaque]
pub open spec fn directories_markup(report: ScanReport) -> Seq<char> {
    DIRECTORIES_PANEL@ + if report.largest_directories@.len() == 0 {
        NO_FILES@
    } else {
        TABLE_OPEN@ + directory_rows_markup(report.largest_directories@) + TABLE_END@
    }
}

pub open spec fn warning_rows_markup(warnings: Seq<ScanWarning>) -> Seq<char>
    decreases warnings.len(),
{
    if warnings.len() == 0 {
        seq![]
    } else {
        warning_rows_markup(warnings.drop_last()) + WARNING_OPEN@ + escaped(sanitized(warnings.last().path@))
            + WARNING_PATH_END@ + escaped(warnings.last().message@) + WARNING_END@
    }
}

#[verifier::opaque]
pub open spec fn notes_markup(report: ScanReport) -> Seq<char> {
    NOTES_PANEL@ + if report.warnings@.len() == 0 {
        NO_WARNINGS@
    } else {
        warning_rows_markup(report.warnings@)
    }
}

/// The whole dashboard for the repository at `root`.
pub open spec fn document_markup(root: Seq<char>, report: ScanReport) -> Seq<char> {
    head_markup(escaped(sanitized(root))) + stats_markup(report) + composition_markup(report) + files_markup(
        report,
    ) + directories_markup(report) + notes_markup(report) + FOOTER_OPEN@ + PACKAGE_VERSION@ + FOOTER_END@
}

fn push_head(html: &mut Html, repository: &Html)
    ensures
        final(html)@ == old(html)@ + head_markup(repository@),
{
    html.push_static(DOC_HEAD);
    html.push(repository);
    html.push_static(TITLE_END);
    html.push_static(STYLE);
    html.push_static(STYLE_END);
    html.push(repository);
    html.push_static(HEADER_END);
    assert(final(html)@ =~= old(html)@ + head_markup(repository@)) by {
        reveal(head_markup);
    }
}

fn push_stats(html: &mut Html, report: &ScanReport)
    ensures
        final(html)@ == old(html)@ + stats_markup(*report),
{
    html.push(&Html::number(report.files as u64));
    html.push_static(FILES_STAT_END);
    html.push_escaped(format_bytes(report.bytes).as_str());
    html.push_static(SIZE_STAT_END);
    html.push(&Html::number(report.by_extension.len() as u64));
    html.push_static(EXTENSIONS_STAT_END);
    let lines_stat = match report.lines.ran() {
        Some(counts) => Html::number(counts.lines),
        None => Html::from_static(NOT_EVALUATED),
    };
    html.push(&lines_stat);
    html.push_static(LINES_STAT_END);
    assert(final(html)@ =~= old(html)@ + stats_markup(*report)) by {
        reveal(stats_markup);
    }
}

proof fn lemma_largest_bounds(languages: Seq<LanguageStat>)
    ensures
        1 <= largest_bytes(languages) <= u64::MAX,
        forall|i: int| 0 <= i < languages.len() ==> languages[i].bytes <= largest_bytes(languages),
    decreases languages.len(),
{
    if languages.len() > 0 {
        lemma_largest_bounds(languages.drop_last());
        assert forall|i: int| 0 <= i < languages.len() implies languages[i].bytes <= largest_bytes(
            languages,
        ) by {
            if i < languages.len() - 1 {
                assert(languages[i] == languages.drop_last()[i]);
            }
        }
    }
}

/// The largest byte count among `languages`, and at least one.
fn largest_language_bytes(languages: &Vec<LanguageStat>) -> (largest: u64)
    ensures
        largest == largest_bytes(languages@),
{
    let mut largest: u64 = 1;
    let mut i: usize = 0;
    while i < languages.len()
        invariant
            i <= languages@.len(),
            largest == largest_bytes(languages@.subrange(0, i as int)),
        decreases languages.len() - i,
    {
        proof {
            assert(languages@.subrange(0, i + 1).drop_last() =~= languages@.subrange(0, i as int));
        }
        if languages[i].bytes > largest {
            largest = languages[i].bytes;
        }
        i += 1;
    }
    assert(languages@.subrange(0, languages@.len() as int) =~= languages@);
    largest
}

fn push_composition(html: &mut Html, report: &ScanReport)
    ensures
        final(html)@ == old(html)@ + composition_markup(*report),
{
    let languages = &report.by_language;
    let largest = largest_language_bytes(languages);
    proof {
        lemma_largest_bounds(languages@);
    }
    let mut i: usize = 0;
    while i < languages.len()
        invariant
            i <= languages@.len(),
            largest == largest_bytes(languages@),
            forall|j: int| 0 <= j < languages.len() ==> languages@[j].bytes <= largest,
            html@ == old(html)@ + bars_markup(languages@.subrange(0, i as int), largest as nat),
        decreases languages.len() - i,
    {
        html.push_static(BAR_OPEN);
        html.push_escaped(languages[i].language.as_str());
        html.push_static(BAR_LABEL_END);
        html.push_escaped(percentage_text(languages[i].bytes, largest).as_str());
        html.push_static(BAR_WIDTH_END);
        html.push_escaped(format_bytes(languages[i].bytes).as_str());
        html.push_static(BAR_END);
        proof {
            let done = languages@.subrange(0, i + 1);
            assert(done.drop_last() =~= languages@.subrange(0, i as int));
            assert(html@ =~= old(html)@ + bars_markup(done, largest as nat));
        }
        i += 1;
    }
    assert(languages@.subrange(0, languages@.len() as int) =~= languages@);
    if languages.len() == 0 {
        html.push_static(NO_FILES);
    }
    assert(final(html)@ =~= old(html)@ + composition_markup(*report)) by {
        reveal(composition_markup);
    }
}

fn push_path_row(html: &mut Html, path: &str, bytes: u64)
    ensures
        final(html)@ == old(html)@ + path_row(path@, bytes),
{
    html.push_static(ROW_OPEN);
    html.push_escaped(display_path(path).as_str());
    html.push_static(ROW_PATH_END);
    html.push_escaped(format_bytes(bytes).as_str());
    html.push_static(ROW_END);
    assert(final(html)@ =~= old(html)@ + path_row(path@, bytes));
}

fn push_files(html: &mut Html, report: &ScanReport)
    ensures
        final(html)@ == old(html)@ + files_markup(*report),
{
    let files = &report.largest_files;
    html.push_static(FILES_PANEL);
    if files.len() == 0 {
        html.push_static(NO_FILES);
    } else {
        html.push_static(TABLE_OPEN);
        let ghost start = html@;
        let mut i: usize = 0;
        while i < files.len()
            invariant
                i <= files@.len(),
                html@ == start + file_rows_markup(files@.subrange(0, i as int)),
            decreases files.len() - i,
        {
            push_path_row(html, files[i].path.as_str(), files[i].bytes);
            proof {
                let done = files@.subrange(0, i + 1);
                assert(done.drop_last() =~= files@.subrange(0, i as int));
                assert(html@ =~= start + file_rows_markup(done));
            }
            i += 1;
        }
        assert(files@.subrange(0, files@.len() as int) =~= files@);
        html.push_static(TABLE_END);
    }
    assert(final(html)@ =~= old(html)@ + files_markup(*report)) by {
        reveal(files_markup);
    }
}

fn push_directories(html: &mut Html, report: &ScanReport)
    ensures
        final(html)@ == old(html)@ + directories_markup(*report),
{
    let directories = &report.largest_directories;
    html.push_static(DIRECTORIES_PANEL);
    if directories.len() == 0 {
        html.push_static(NO_FILES);
    } else {
        html.push_static(TABLE_OPEN);
        let ghost start = html@;
        let mut i: usize = 0;
        while i < directories.len()
            invariant
                i <= directories@.len(),
                html@ == start + directory_rows_markup(directories@.subrange(0, i as int)),
            decreases directories.len() - i,
        {
            push_path_row(html, directories[i].path.as_str(), directories[i].bytes);
            proof {
                let done = directories@.subrange(0, i + 1);
                assert(done.drop_last() =~= directories@.subrange(0, i as int));
                assert(html@ =~= start + directory_rows_markup(done));
            }
            i += 1;
        }
        assert(directories@.subrange(0, directories@.len() as int) =~= directories@);
        html.push_static(TABLE_END);
    }
    assert(final(html)@ =~= old(html)@ + directories_markup(*report)) by {
        reveal(directories_markup);
    }
}

fn push_notes(html: &mut Html, report: &ScanReport)
    ensures
        final(html)@ == old(html)@ + notes_markup(*report),
{
    let warnings = &report.warnings;
    html.push_static(NOTES_PANEL);
    if warnings.len() == 0 {
        html.push_static(NO_WARNINGS);
    } else {
        let ghost start = html@;
        let mut i: usize = 0;
        while i < warnings.len()
            invariant
                i <= warnings@.len(),
                html@ == start + warning_rows_markup(warnings@.subrange(0, i as int)),
            decreases warnings.len() - i,
        {
            html.push_static(WARNING_OPEN);
            html.push_escaped(display_path(warnings[i].path.as_str()).as_str());
            html.push_static(WARNING_PATH_END);
            html.push_escaped(warnings[i].message.as_str());
            html.push_static(WARNING_END);
            proof {
                let done = warnings@.subrange(0, i + 1);
                assert(done.drop_last() =~= warnings@.subrange(0, i as int));
                assert(html@ =~= start + warning_rows_markup(done));
            }
            i += 1;
        }
        assert(warnings@.subrange(0, warnings@.len() as int) =~= warnings@);
    }
    assert(final(html)@ =~= old(html)@ + notes_markup(*report)) by {
        reveal(notes_markup);
    }
}

/// Assembles the dashboard for the repository at `root`.
pub fn document(root: &str, report: &ScanReport) -> (html: Html)
    ensures
        html@ == document_markup(root@, *report),
{
    let repository = Html::escape(display_path(root).as_str());
    let mut html = Html::default();
    push_head(&mut html, &repository);
    push_stats(&mut html, report);
    push_composition(&mut html, report);
    push_files(&mut html, report);
    push_directories(&mut html, report);
    push_notes(&mut html, report);
    html.push_static(FOOTER_OPEN);
    html.push_static(PACKAGE_VERSION);
    html.push_static(FOOTER_END);
    assert(html@ =~= document_markup(root@, *report));
    html
}

/// Writes the dashboard for the repository at `root` to `out`; see
/// [`document`].
pub fn write_html(out: &mut String, root: &str, report: &ScanReport)
    ensures
        final(out)@ == old(out)@ + document_markup(root@, *report),
{
    let html = document(root, report);
    text::push_str(out, html.as_str());
}

} // verus!
