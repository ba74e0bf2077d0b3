//! The repository's stated purpose: a manifest description, a README's first
//! substantive paragraph, or a non-placeholder `.git/description`.
//!
//! The precedence table is fixed and versioned: the first source that yields
//! a non-empty normalized statement wins, and later sources are never
//! consulted. Nothing is invented: with none of the sources, the result says
//! what was looked for rather than stating an empty purpose.
//!
//! Every statement is repository content, stored as the source said it with
//! only its whitespace normalized; renderers sanitize it for their medium.
use vstd::prelude::*;

use crate::analysis::cargo::MAX_FILE_BYTES;
use crate::analysis::{bounded_read_is, read_bounded, Confidence, FileRead};
use crate::boundary;
use crate::document::{self, json_parsed, text_at, toml_parsed, Node};
use crate::scan::ascii_lower;
use crate::text::{self, char_lines, join, joined, index_of_first, is_space, str_le, trim, trim_end};
use crate::{Analysis, NotEvaluated, ScanConfig, ScanWarning};

verus! {

/// A stated purpose for the repository, with the evidence that produced it.
#[derive(Debug, Clone, PartialEq, Eq)]
pub struct ProjectPurpose {
    /// The stated purpose, whitespace-normalized and capped.
    pub statement: String,
    /// The repository-relative file the statement came from.
    pub evidence: String,
    /// Which kind of source produced it.
    pub source: PurposeSource,
    /// `Certain` for a manifest field, `Inferred` for prose.
    pub confidence: Confidence,
    /// True when the statement was cut at [`MAX_STATEMENT_CHARS`].
    pub truncated: bool,
}

/// Which kind of source a purpose statement came from.
#[derive(Debug, Clone, Copy, PartialEq, Eq)]
pub enum PurposeSource {
    /// The value a result that did not run carries. Never produced by a
    /// successful extraction.
    Undetermined,
    /// A package manifest's description field.
    Manifest,
    /// The README's first substantive paragraph.
    Readme,
    /// `.git/description`.
    GitDescription,
}

impl Default for PurposeSource {
    fn default() -> (source: Self)
        ensures
            source == PurposeSource::Undetermined,
    {
        PurposeSource::Undetermined
    }
}

impl PurposeSource {
    /// The stable snake_case token for this source.
    pub open spec fn token(self) -> Seq<char> {
        match self {
            PurposeSource::Undetermined => "undetermined"@,
            PurposeSource::Manifest => "manifest"@,
            PurposeSource::Readme => "readme"@,
            PurposeSource::GitDescription => "git_description"@,
        }
    }

    /// The stable snake_case token, matching the JSON contract's spelling.
    pub fn label(self) -> (token: &'static str)
        ensures
            token@ == self.token(),
    {
        match self {
            PurposeSource::Undetermined => "undetermined",
            PurposeSource::Manifest => "manifest",
            PurposeSource::Readme => "readme",
            PurposeSource::GitDescription => "git_description",
        }
    }
}

impl Default for ProjectPurpose {
    fn default() -> (purpose: Self)
        ensures
            purpose.statement@.len() == 0,
            purpose.evidence@.len() == 0,
            purpose.source == PurposeSource::Undetermined,
            purpose.confidence == Confidence::Inferred,
            !purpose.truncated,
    {
        ProjectPurpose {
            statement: String::new(),
            evidence: String::new(),
            source: PurposeSource::Undetermined,
            confidence: Confidence::Inferred,
            truncated: false,
        }
    }
}

/// Version of the purpose precedence table. Bump on any entry or order
/// change.
pub const PURPOSE_TABLE_VERSION: u32 = 1;

/// The cap on a statement's length, in characters, never bytes, so a
/// multi-byte statement is never cut mid-character.
pub const MAX_STATEMENT_CHARS: usize = 500;

/// How far back from the cap a cut looks for a space to break at.
pub const CUT_WINDOW_CHARS: usize = 80;

/// README candidates larger than this are skipped rather than read.
pub const README_MAX_BYTES: u64 = 1048576;

/// `.git/description` larger than this is skipped rather than read.
pub const GIT_DESCRIPTION_MAX_BYTES: u64 = 65536;

pub const CARGO_MANIFEST_FILE: &'static str = "Cargo.toml";
pub const PACKAGE_JSON_FILE: &'static str = "package.json";
pub const PYPROJECT_TOML_FILE: &'static str = "pyproject.toml";
pub const COMPOSER_JSON_FILE: &'static str = "composer.json";
pub const GO_MOD_FILE: &'static str = "go.mod";
pub const GIT_DESCRIPTION_EVIDENCE: &'static str = ".git/description";

/// The start of the placeholder text `git init` writes. Not a stated purpose.
pub const GIT_DESCRIPTION_PLACEHOLDER_PREFIX: &'static str = "Unnamed repository";

/// The detail when every source in the table missed.
pub const NO_PURPOSE_FOUND: &'static str = "no manifest description, README paragraph, or Git description found";

/// Warning for a manifest that exists but is oversized, unreadable, or not
/// valid UTF-8. Never anything read from the file itself.
pub const WARN_UNREADABLE: &'static str = "could not be read for a purpose statement";

/// Warning for a manifest that was read but failed to parse. Never anything
/// from the parser's own error value, which quotes the input.
pub const WARN_MALFORMED: &'static str = "could not be parsed for a purpose statement";

/// `s` with every run of whitespace collapsed to one space and the ends
/// trimmed: a non-space character follows the text before it directly, or
/// after a single space when whitespace separated it from earlier text.
pub open spec fn normalized(s: Seq<char>) -> Seq<char>
    decreases s.len(),
{
    if s.len() == 0 {
        seq![]
    } else {
        let before = s.drop_last();
        let c = s.last();
        if is_space(c) {
            normalized(before)
        } else if normalized(before).len() > 0 && is_space(before.last()) {
            normalized(before).push(' ').push(c)
        } else {
            normalized(before).push(c)
        }
    }
}

/// Collapses every run of Unicode whitespace to a single space and trims the
/// ends, so a multi-line description and a wrapped paragraph come out the
/// same shape.
pub fn normalize_statement(raw: &str) -> (normalized_text: String)
    ensures
        normalized_text@ == normalized(raw@),
{
    let chars = text::chars_of(raw);
    let mut out = String::new();
    let mut in_space_run = false;
    let mut i: usize = 0;
    while i < chars.len()
        invariant
            i <= chars@.len(),
            chars@ == raw@,
            out@ == normalized(chars@.subrange(0, i as int)),
            in_space_run == (i > 0 && is_space(chars@[i - 1])),
        decreases chars.len() - i,
    {
        let c = chars[i];
        proof {
            let s = chars@.subrange(0, i + 1);
            assert(s.drop_last() =~= chars@.subrange(0, i as int));
            assert(s.last() == c);
        }
        if text::is_whitespace(c) {
            in_space_run = true;
        } else {
            if in_space_run && !out.as_str().is_empty() {
                out.push(' ');
            }
            in_space_run = false;
            out.push(c);
        }
        i += 1;
    }
    assert(chars@.subrange(0, chars@.len() as int) =~= chars@);
    out
}

/// Text with no whitespace but single spaces, each between two non-space
/// characters.
pub open spec fn is_normal(s: Seq<char>) -> bool {
    forall|k: int|
        0 <= k < s.len() && is_space(#[trigger] s[k]) ==> s[k] == ' ' && 0 < k < s.len() - 1 && !is_space(s[k - 1])
            && !is_space(s[k + 1])
}

/// Text whose spaces are single, follow a non-space character, and are the
/// only whitespace: the shape of normalized text with perhaps one trailing
/// space.
spec fn spaced(s: Seq<char>) -> bool {
    forall|k: int| 0 <= k < s.len() && is_space(#[trigger] s[k]) ==> s[k] == ' ' && 0 < k && !is_space(s[k - 1])
}

proof fn lemma_normalized_is_normal(s: Seq<char>)
    ensures
        is_normal(normalized(s)),
        normalized(s).len() > 0 ==> !is_space(normalized(s).last()),
    decreases s.len(),
{
    if s.len() > 0 {
        let before = s.drop_last();
        lemma_normalized_is_normal(before);
        let n = normalized(before);
        let r = normalized(s);
        if !is_space(s.last()) {
            assert forall|k: int| 0 <= k < r.len() && is_space(#[trigger] r[k]) implies r[k] == ' ' && 0 < k < r.len()
                - 1 && !is_space(r[k - 1]) && !is_space(r[k + 1]) by {
                if k < n.len() {
                    assert(r[k] == n[k]);
                    assert(r[k - 1] == n[k - 1]);
                    if k + 1 < n.len() {
                        assert(r[k + 1] == n[k + 1]);
                    }
                }
            }
        }
    }
}

proof fn lemma_spaced_normalizes(s: Seq<char>)
    requires
        spaced(s),
    ensures
        normalized(s) == (if s.len() > 0 && is_space(s.last()) {
            s.drop_last()
        } else {
            s
        }),
    decreases s.len(),
{
    if s.len() > 0 {
        let t = s.drop_last();
        assert(spaced(t)) by {
            assert forall|k: int| 0 <= k < t.len() && is_space(#[trigger] t[k]) implies t[k] == ' ' && 0 < k
                && !is_space(t[k - 1]) by {
                assert(s[k] == t[k]);
                assert(s[k - 1] == t[k - 1]);
            }
        }
        lemma_spaced_normalizes(t);
        if is_space(s.last()) {
            assert(s[s.len() - 1] == s.last());
            assert(t.len() > 0 && !is_space(t.last())) by {
                assert(t.last() == s[s.len() - 2]);
            }
        } else if t.len() > 0 && is_space(t.last()) {
            assert(t.last() == s[t.len() - 1]);
            assert(t.len() - 1 > 0);
            assert(s.drop_last().drop_last().push(' ').push(s.last()) =~= s);
        } else {
            assert(t.push(s.last()) =~= s);
        }
    }
}

/// Normalized text is made of words separated by single spaces, with no
/// whitespace at either end and no whitespace but those spaces.
pub proof fn normalized_text_is_normal(s: Seq<char>)
    ensures
        is_normal(normalized(s)),
{
    lemma_normalized_is_normal(s);
}

/// Normalizing normalized text leaves it unchanged.
pub proof fn normalizing_is_idempotent(s: Seq<char>)
    ensures
        normalized(normalized(s)) == normalized(s),
{
    let n = normalized(s);
    lemma_normalized_is_normal(s);
    assert(spaced(n)) by {
        assert forall|k: int| 0 <= k < n.len() && is_space(#[trigger] n[k]) implies n[k] == ' ' && 0 < k && !is_space(
            n[k - 1],
        ) by {}
    }
    lemma_spaced_normalizes(n);
}

/// The last space in `s[lo..hi]`, or `lo - 1` when there is none.
pub open spec fn last_space(s: Seq<char>, lo: int, hi: int) -> int
    decreases hi - lo,
{
    if hi <= lo {
        lo - 1
    } else if s[hi - 1] == ' ' {
        hi - 1
    } else {
        last_space(s, lo, hi - 1)
    }
}

proof fn lemma_last_space(s: Seq<char>, lo: int, hi: int)
    requires
        0 <= lo <= hi <= s.len(),
    ensures
        lo - 1 <= last_space(s, lo, hi) < hi,
        last_space(s, lo, hi) >= lo ==> s[last_space(s, lo, hi)] == ' ',
        forall|k: int| last_space(s, lo, hi) < k < hi ==> s[k] != ' ',
    decreases hi - lo,
{
    if hi > lo && s[hi - 1] != ' ' {
        lemma_last_space(s, lo, hi - 1);
    }
}

/// The capped statement and whether it was cut. A statement over the cap is
/// cut to its first [`MAX_STATEMENT_CHARS`] characters, then back to the last
/// space within the final [`CUT_WINDOW_CHARS`] of those so a word is not
/// split, and its trailing whitespace is trimmed.
pub open spec fn capped(s: Seq<char>) -> (Seq<char>, bool) {
    if s.len() <= MAX_STATEMENT_CHARS {
        (s, false)
    } else {
        let head = s.take(MAX_STATEMENT_CHARS as int);
        let k = last_space(head, (MAX_STATEMENT_CHARS - CUT_WINDOW_CHARS) as int, MAX_STATEMENT_CHARS as int);
        let cut = if k >= (MAX_STATEMENT_CHARS - CUT_WINDOW_CHARS) as int {
            head.take(k)
        } else {
            head
        };
        (trim_end(cut), true)
    }
}

/// Caps a statement at [`MAX_STATEMENT_CHARS`] characters, never bytes.
pub fn cap_statement(normalized_text: &str) -> (result: (String, bool))
    ensures
        result.0@ == capped(normalized_text@).0,
        result.1 == capped(normalized_text@).1,
{
    let chars = text::chars_of(normalized_text);
    if chars.len() <= MAX_STATEMENT_CHARS {
        return (text::owned(normalized_text), false);
    }
    let ghost head = chars@.take(MAX_STATEMENT_CHARS as int);
    let lo: usize = MAX_STATEMENT_CHARS - CUT_WINDOW_CHARS;
    let mut k: usize = MAX_STATEMENT_CHARS;
    while k > lo && chars[k - 1] != ' '
        invariant
            lo <= k <= MAX_STATEMENT_CHARS < chars@.len(),
            head == chars@.take(MAX_STATEMENT_CHARS as int),
            last_space(head, lo as int, MAX_STATEMENT_CHARS as int) == last_space(head, lo as int, k as int),
        decreases k - lo,
    {
        k -= 1;
    }
    let end = if k > lo {
        k - 1
    } else {
        MAX_STATEMENT_CHARS
    };
    proof {
        if k > lo {
            assert(head[k - 1] == ' ');
        }
        assert(head.take(end as int) =~= chars@.subrange(0, end as int));
    }
    let b = text::trim_end_bound(&chars, 0, end);
    (text::string_of(&chars, 0, b), true)
}

/// A capped statement is never longer than the cap, and is cut exactly when
/// the statement was over it.
pub proof fn capping_bounds_the_statement(s: Seq<char>)
    ensures
        capped(s).0.len() <= MAX_STATEMENT_CHARS,
        capped(s).1 <==> s.len() > MAX_STATEMENT_CHARS,
        capped(s).0.len() <= s.len(),
        capped(s).0 == s.take(capped(s).0.len() as int),
{
    if s.len() > MAX_STATEMENT_CHARS {
        let head = s.take(MAX_STATEMENT_CHARS as int);
        let lo = (MAX_STATEMENT_CHARS - CUT_WINDOW_CHARS) as int;
        lemma_last_space(head, lo, MAX_STATEMENT_CHARS as int);
        let k = last_space(head, lo, MAX_STATEMENT_CHARS as int);
        let cut = if k >= lo {
            head.take(k)
        } else {
            head
        };
        lemma_trim_end_prefix(cut);
        assert(trim_end(cut) =~= s.take(trim_end(cut).len() as int));
    }
}

proof fn lemma_trim_end_prefix(s: Seq<char>)
    ensures
        trim_end(s).len() <= s.len(),
        trim_end(s) == s.take(trim_end(s).len() as int),
    decreases s.len(),
{
    if s.len() > 0 && is_space(s.last()) {
        lemma_trim_end_prefix(s.drop_last());
        assert(trim_end(s) =~= s.take(trim_end(s).len() as int));
    } else {
        assert(s.take(s.len() as int) =~= s);
    }
}


pub open spec fn comment_open() -> Seq<char> {
    seq!['<', '!', '-', '-']
}

pub open spec fn comment_close() -> Seq<char> {
    seq!['-', '-', '>']
}

/// `s` with every HTML comment removed: each `<!--` through the first `-->`
/// after it; an unterminated `<!--` removes the rest of the text.
pub open spec fn without_comments(s: Seq<char>) -> Seq<char>
    decreases s.len(),
{
    let start = text::first_match(s, comment_open());
    if start < 0 {
        s
    } else {
        proof {
            text::lemma_first_match_from(s, comment_open(), 0);
        }
        let after = s.subrange(start + 4, s.len() as int);
        let end = text::first_match(after, comment_close());
        if end < 0 {
            s.take(start)
        } else {
            proof {
                text::lemma_first_match_from(after, comment_close(), 0);
            }
            s.take(start) + without_comments(after.subrange(end + 3, after.len() as int))
        }
    }
}

fn pattern_open() -> (v: Vec<char>)
    ensures
        v@ == comment_open(),
{
    vec!['<', '!', '-', '-']
}

fn pattern_close() -> (v: Vec<char>)
    ensures
        v@ == comment_close(),
{
    vec!['-', '-', '>']
}

/// `chars[lo..hi]` with every HTML comment removed.
fn strip_comments_in(chars: &Vec<char>, lo: usize, hi: usize) -> (out: Vec<char>)
    requires
        lo <= hi <= chars@.len(),
    ensures
        out@ == without_comments(chars@.subrange(lo as int, hi as int)),
{
    let open = pattern_open();
    let close = pattern_close();
    let mut out: Vec<char> = Vec::new();
    let mut pos = lo;
    let ghost whole = without_comments(chars@.subrange(lo as int, hi as int));
    loop
        invariant
            lo <= pos <= hi <= chars@.len(),
            open@ == comment_open(),
            close@ == comment_close(),
            whole == without_comments(chars@.subrange(lo as int, hi as int)),
            whole == out@ + without_comments(chars@.subrange(pos as int, hi as int)),
        decreases hi - pos,
    {
        let ghost rest = chars@.subrange(pos as int, hi as int);
        match text::find(chars, pos, hi, &open) {
            None => {
                let mut i = pos;
                while i < hi
                    invariant
                        pos <= i <= hi <= chars@.len(),
                        whole == out@ + chars@.subrange(i as int, hi as int),
                    decreases hi - i,
                {
                    proof {
                        assert(chars@.subrange(i as int, hi as int) =~= seq![chars@[i as int]] + chars@.subrange(i + 1, hi as int));
                    }
                    out.push(chars[i]);
                    proof {
                        assert(out@.drop_last() + seq![chars@[i as int]] =~= out@);
                    }
                    i += 1;
                }
                assert(chars@.subrange(hi as int, hi as int) =~= Seq::<char>::empty());
                assert(out@ + Seq::<char>::empty() =~= out@);
                return out;
            },
            Some(start) => {
                let ghost before = out@;
                let mut i = pos;
                while i < pos + start
                    invariant
                        pos <= i <= pos + start <= hi <= chars@.len(),
                        out@ == before + chars@.subrange(pos as int, i as int),
                    decreases pos + start - i,
                {
                    out.push(chars[i]);
                    i += 1;
                    assert(out@ =~= before + chars@.subrange(pos as int, i as int));
                }
                let a = pos + start + 4;
                proof {
                    assert(rest.take(start as int) =~= chars@.subrange(pos as int, pos + start));
                    assert(rest.subrange(start + 4, rest.len() as int) =~= chars@.subrange(a as int, hi as int));
                }
                match text::find(chars, a, hi, &close) {
                    Some(end) => {
                        proof {
                            let after = chars@.subrange(a as int, hi as int);
                            assert(after.subrange(end + 3, after.len() as int) =~= chars@.subrange(a + end + 3, hi as int));
                            assert(whole == out@ + without_comments(chars@.subrange(a + end + 3, hi as int)));
                        }
                        pos = a + end + 3;
                    },
                    None => {
                        assert(whole =~= out@);
                        return out;
                    },
                }
            },
        }
    }
}

/// Removes every HTML comment (`<!--` through its matching `-->`, across line
/// breaks too). An unterminated `<!--` removes the rest of the text, as a
/// browser does.
pub fn strip_html_comments(content: &str) -> (stripped: String)
    ensures
        stripped@ == without_comments(content@),
{
    let chars = text::chars_of(content);
    let out = strip_comments_in(&chars, 0, chars.len());
    assert(chars@.subrange(0, chars@.len() as int) =~= chars@);
    assert(out@.subrange(0, out@.len() as int) =~= out@);
    text::string_of(&out, 0, out.len())
}


/// The end of the line starting at `pos`: the next `\n`, or the end of `s`.
pub open spec fn line_end(s: Seq<char>, pos: int) -> int {
    pos + index_of_first(s.subrange(pos, s.len() as int), '\n')
}

/// Where the text after the line starting at `pos` begins.
pub open spec fn after_line(s: Seq<char>, pos: int) -> int {
    if line_end(s, pos) < s.len() {
        line_end(s, pos) + 1
    } else {
        s.len() as int
    }
}

pub proof fn lemma_after_line(s: Seq<char>, pos: int)
    requires
        0 <= pos < s.len(),
    ensures
        pos <= line_end(s, pos) <= s.len(),
        pos < after_line(s, pos) <= s.len(),
        line_end(s, pos) < s.len() ==> s[line_end(s, pos)] == '\n',
        forall|i: int| pos <= i < line_end(s, pos) ==> s[i] != '\n',
{
    let rest = s.subrange(pos, s.len() as int);
    text::lemma_index_of_first(rest, '\n');
    assert forall|i: int| pos <= i < line_end(s, pos) implies s[i] != '\n' by {
        assert(rest[i - pos] == s[i]);
    }
}

pub open spec fn yaml_delimiter() -> Seq<char> {
    seq!['-', '-', '-']
}

pub open spec fn toml_delimiter() -> Seq<char> {
    seq!['+', '+', '+']
}

/// The front matter's opening delimiter, skipping blank lines from `pos`,
/// and where the text after it begins: only a first non-blank line that is
/// `---` or `+++` opens front matter.
pub open spec fn opening_delimiter(s: Seq<char>, pos: int) -> Option<(Seq<char>, int)>
    decreases s.len() - pos,
{
    if pos < 0 || pos >= s.len() {
        None
    } else {
        proof {
            lemma_after_line(s, pos);
        }
        let t = trim(s.subrange(pos, line_end(s, pos)));
        if t.len() == 0 {
            opening_delimiter(s, after_line(s, pos))
        } else if t == yaml_delimiter() || t == toml_delimiter() {
            Some((t, after_line(s, pos)))
        } else {
            None
        }
    }
}

/// Where the text after the first line from `pos` that is `delimiter`
/// (trimmed) begins, if there is such a line.
pub open spec fn closing_delimiter(s: Seq<char>, pos: int, delimiter: Seq<char>) -> Option<int>
    decreases s.len() - pos,
{
    if pos < 0 || pos >= s.len() {
        None
    } else {
        proof {
            lemma_after_line(s, pos);
        }
        if trim(s.subrange(pos, line_end(s, pos))) == delimiter {
            Some(after_line(s, pos))
        } else {
            closing_delimiter(s, after_line(s, pos), delimiter)
        }
    }
}

/// Where `s` begins once a leading front matter block is removed: a YAML
/// (`---`) or TOML (`+++`) block, recognized only at the top of the text and
/// only when it closes; otherwise nothing is removed.
pub open spec fn front_matter_end(s: Seq<char>) -> int {
    match opening_delimiter(s, 0) {
        Some((delimiter, pos)) => match closing_delimiter(s, pos, delimiter) {
            Some(end) => end,
            None => 0,
        },
        None => 0,
    }
}

proof fn lemma_opening_bounds(s: Seq<char>, pos: int)
    requires
        0 <= pos,
    ensures
        opening_delimiter(s, pos) matches Some((d, p)) ==> pos < p <= s.len() && (d == yaml_delimiter() || d
            == toml_delimiter()),
    decreases s.len() - pos,
{
    if 0 <= pos < s.len() {
        lemma_after_line(s, pos);
        lemma_opening_bounds(s, after_line(s, pos));
    }
}

proof fn lemma_closing_bounds(s: Seq<char>, pos: int, d: Seq<char>)
    requires
        0 <= pos,
    ensures
        closing_delimiter(s, pos, d) matches Some(e) ==> pos < e <= s.len(),
    decreases s.len() - pos,
{
    if 0 <= pos < s.len() {
        lemma_after_line(s, pos);
        lemma_closing_bounds(s, after_line(s, pos), d);
    }
}

/// The line of `chars` starting at `pos` (`pos < chars.len()`): its end and
/// where the next begins.
fn split_line(chars: &Vec<char>, pos: usize) -> (r: (usize, usize))
    requires
        pos < chars@.len(),
    ensures
        r.0 == line_end(chars@, pos as int),
        r.1 == after_line(chars@, pos as int),
        pos <= r.0 <= chars@.len(),
        pos < r.1 <= chars@.len(),
{
    let n = chars.len();
    let mut k = pos;
    while k < n && chars[k] != '\n'
        invariant
            pos <= k <= n == chars@.len(),
            forall|i: int| pos <= i < k ==> chars@[i] != '\n',
        decreases n - k,
    {
        k += 1;
    }
    proof {
        let rest = chars@.subrange(pos as int, n as int);
        text::lemma_index_of_first_unique(rest, '\n', k - pos);
    }
    if k < n {
        (k, k + 1)
    } else {
        (k, n)
    }
}

fn delimiter_kind(chars: &Vec<char>, a: usize, b: usize) -> (kind: u8)
    requires
        a <= b <= chars@.len(),
    ensures
        kind == 1 <==> chars@.subrange(a as int, b as int) == yaml_delimiter(),
        kind == 2 <==> chars@.subrange(a as int, b as int) == toml_delimiter(),
        kind == 0 || kind == 1 || kind == 2,
{
    let ghost t = chars@.subrange(a as int, b as int);
    if b - a != 3 {
        assert(t.len() != 3);
        return 0;
    }
    if chars[a] == '-' && chars[a + 1] == '-' && chars[a + 2] == '-' {
        assert(t =~= yaml_delimiter());
        1
    } else if chars[a] == '+' && chars[a + 1] == '+' && chars[a + 2] == '+' {
        assert(t =~= toml_delimiter());
        2
    } else {
        assert(t != yaml_delimiter()) by {
            if t == yaml_delimiter() {
                assert(t[0] == '-' && t[1] == '-' && t[2] == '-');
            }
        }
        assert(t != toml_delimiter()) by {
            if t == toml_delimiter() {
                assert(t[0] == '+' && t[1] == '+' && t[2] == '+');
            }
        }
        0
    }
}

/// Where the text of `chars` begins once a leading front matter block is
/// removed.
fn front_matter_skip(chars: &Vec<char>) -> (start: usize)
    ensures
        start == front_matter_end(chars@),
        start <= chars@.len(),
{
    let n = chars.len();
    let mut pos: usize = 0;
    let mut kind: u8 = 0;
    while pos < n
        invariant_except_break
            pos <= n == chars@.len(),
            kind == 0,
            opening_delimiter(chars@, 0) == opening_delimiter(chars@, pos as int),
        ensures
            pos <= n == chars@.len(),
            kind == 0 ==> opening_delimiter(chars@, 0) is None,
            kind == 1 ==> opening_delimiter(chars@, 0) == Some((yaml_delimiter(), pos as int)),
            kind == 2 ==> opening_delimiter(chars@, 0) == Some((toml_delimiter(), pos as int)),
            kind <= 2,
        decreases n - pos,
    {
        proof {
            lemma_after_line(chars@, pos as int);
        }
        let (end, next) = split_line(chars, pos);
        let (a, b) = text::trim_bounds(chars, pos, end);
        if a == b {
            pos = next;
        } else {
            kind = delimiter_kind(chars, a, b);
            pos = next;
            break;
        }
    }
    if kind == 0 {
        return 0;
    }
    let ghost delimiter = if kind == 1 { yaml_delimiter() } else { toml_delimiter() };
    assert(opening_delimiter(chars@, 0) == Some((delimiter, pos as int)));
    while pos < n
        invariant
            pos <= n == chars@.len(),
            kind == 1 || kind == 2,
            delimiter == (if kind == 1 { yaml_delimiter() } else { toml_delimiter() }),
            front_matter_end(chars@) == match closing_delimiter(chars@, pos as int, delimiter) {
                Some(end) => end,
                None => 0,
            },
        decreases n - pos,
    {
        proof {
            lemma_after_line(chars@, pos as int);
        }
        let (end, next) = split_line(chars, pos);
        let (a, b) = text::trim_bounds(chars, pos, end);
        if delimiter_kind(chars, a, b) == kind {
            return next;
        }
        pos = next;
    }
    0
}


/// A fenced code delimiter: three backticks or three tildes.
pub open spec fn is_fence(t: Seq<char>) -> bool {
    t.len() >= 3 && (t.take(3) == seq!['`', '`', '`'] || t.take(3) == seq!['~', '~', '~'])
}

/// A Setext heading underline: at least two characters, all `=` or all `-`.
pub open spec fn is_setext_underline_text(t: Seq<char>) -> bool {
    t.len() >= 2 && ((forall|i: int| 0 <= i < t.len() ==> t[i] == '=') || (forall|i: int|
        0 <= i < t.len() ==> t[i] == '-'))
}

/// Occurrences of `c` in `t`.
pub open spec fn count_of(t: Seq<char>, c: char) -> nat
    decreases t.len(),
{
    if t.len() == 0 {
        0
    } else {
        count_of(t.drop_last(), c) + if t.last() == c {
            1nat
        } else {
            0nat
        }
    }
}

/// Three or more of `symbol` with only whitespace between them.
pub open spec fn is_rule_of(t: Seq<char>, symbol: char) -> bool {
    count_of(t, symbol) >= 3 && forall|i: int| 0 <= i < t.len() ==> t[i] == symbol || is_space(t[i])
}

/// A horizontal rule: three or more of one of `-`, `*`, `_`, not a mixture,
/// with only whitespace between them.
pub open spec fn is_rule(t: Seq<char>) -> bool {
    is_rule_of(t, '-') || is_rule_of(t, '*') || is_rule_of(t, '_')
}

/// Starts with `c`.
pub open spec fn starts_with_char(t: Seq<char>, c: char) -> bool {
    t.len() > 0 && t[0] == c
}

fn fence_at(v: &Vec<char>, a: usize, b: usize) -> (r: bool)
    requires
        a <= b <= v@.len(),
    ensures
        r == is_fence(v@.subrange(a as int, b as int)),
{
    let ghost t = v@.subrange(a as int, b as int);
    if b - a < 3 {
        return false;
    }
    let backticks = v[a] == '`' && v[a + 1] == '`' && v[a + 2] == '`';
    let tildes = v[a] == '~' && v[a + 1] == '~' && v[a + 2] == '~';
    proof {
        if backticks {
            assert(t.take(3) =~= seq!['`', '`', '`']);
        } else if t.take(3) == seq!['`', '`', '`'] {
            assert(t.take(3)[0] == '`' && t.take(3)[1] == '`' && t.take(3)[2] == '`');
        }
        if tildes {
            assert(t.take(3) =~= seq!['~', '~', '~']);
        } else if t.take(3) == seq!['~', '~', '~'] {
            assert(t.take(3)[0] == '~' && t.take(3)[1] == '~' && t.take(3)[2] == '~');
        }
    }
    backticks || tildes
}

fn all_equal_to(v: &Vec<char>, a: usize, b: usize, c: char) -> (r: bool)
    requires
        a <= b <= v@.len(),
    ensures
        r == forall|i: int| 0 <= i < b - a ==> v@.subrange(a as int, b as int)[i] == c,
{
    let mut i = a;
    while i < b
        invariant
            a <= i <= b <= v@.len(),
            forall|j: int| a <= j < i ==> v@[j] == c,
        decreases b - i,
    {
        if v[i] != c {
            assert(v@.subrange(a as int, b as int)[i - a] == v@[i as int]);
            return false;
        }
        i += 1;
    }
    assert forall|i: int| 0 <= i < b - a implies v@.subrange(a as int, b as int)[i] == c by {
        assert(v@[a + i] == c);
    }
    true
}

fn setext_at(v: &Vec<char>, a: usize, b: usize) -> (r: bool)
    requires
        a <= b <= v@.len(),
    ensures
        r == is_setext_underline_text(v@.subrange(a as int, b as int)),
{
    b - a >= 2 && (all_equal_to(v, a, b, '=') || all_equal_to(v, a, b, '-'))
}

fn rule_of_at(v: &Vec<char>, a: usize, b: usize, symbol: char) -> (r: bool)
    requires
        a <= b <= v@.len(),
    ensures
        r == is_rule_of(v@.subrange(a as int, b as int), symbol),
{
    let ghost t = v@.subrange(a as int, b as int);
    let mut count: usize = 0;
    let mut only = true;
    let mut i = a;
    while i < b
        invariant
            a <= i <= b <= v@.len(),
            t == v@.subrange(a as int, b as int),
            count == count_of(v@.subrange(a as int, i as int), symbol),
            count <= i - a,
            only == forall|j: int| a <= j < i ==> v@[j] == symbol || is_space(v@[j]),
        decreases b - i,
    {
        assert(v@.subrange(a as int, i + 1).drop_last() =~= v@.subrange(a as int, i as int));
        if v[i] == symbol {
            count += 1;
        } else if !text::is_whitespace(v[i]) {
            only = false;
        }
        i += 1;
    }
    proof {
        if only {
            assert forall|j: int| 0 <= j < t.len() implies t[j] == symbol || is_space(t[j]) by {
                assert(t[j] == v@[a + j]);
            }
        } else {
            let j = choose|j: int| a <= j < b && !(v@[j] == symbol || is_space(v@[j]));
            assert(t[j - a] == v@[j]);
        }
    }
    count >= 3 && only
}

fn rule_at(v: &Vec<char>, a: usize, b: usize) -> (r: bool)
    requires
        a <= b <= v@.len(),
    ensures
        r == is_rule(v@.subrange(a as int, b as int)),
{
    rule_of_at(v, a, b, '-') || rule_of_at(v, a, b, '*') || rule_of_at(v, a, b, '_')
}

/// Where the label opened before `cursor` closes, counting nested brackets
/// with `depth` of them open; `-1` when it never does.
pub open spec fn label_close(s: Seq<char>, cursor: int, depth: int) -> int
    decreases s.len() - cursor,
{
    if cursor < 0 || cursor >= s.len() {
        -1
    } else if s[cursor] == '[' {
        label_close(s, cursor + 1, depth + 1)
    } else if s[cursor] == ']' {
        if depth - 1 == 0 {
            cursor
        } else {
            label_close(s, cursor + 1, depth - 1)
        }
    } else {
        label_close(s, cursor + 1, depth)
    }
}

pub proof fn lemma_label_close(s: Seq<char>, cursor: int, depth: int)
    requires
        0 <= cursor,
    ensures
        label_close(s, cursor, depth) == -1 || cursor <= label_close(s, cursor, depth) < s.len(),
    decreases s.len() - cursor,
{
    if cursor < s.len() {
        if s[cursor] == '[' {
            lemma_label_close(s, cursor + 1, depth + 1);
        } else if s[cursor] == ']' {
            if depth - 1 != 0 {
                lemma_label_close(s, cursor + 1, depth - 1);
            }
        } else {
            lemma_label_close(s, cursor + 1, depth);
        }
    }
}

/// The first `c` in `s` at or after `from`, or `-1`.
pub open spec fn index_from(s: Seq<char>, from: int, c: char) -> int
    decreases s.len() - from,
{
    if from < 0 || from >= s.len() {
        -1
    } else if s[from] == c {
        from
    } else {
        index_from(s, from + 1, c)
    }
}

pub proof fn lemma_index_from(s: Seq<char>, from: int, c: char)
    requires
        0 <= from,
    ensures
        index_from(s, from, c) == -1 || from <= index_from(s, from, c) < s.len(),
    decreases s.len() - from,
{
    if from < s.len() && s[from] != c {
        lemma_index_from(s, from + 1, c);
    }
}

/// `s` from `i` on, with every Markdown image (`![alt](url)`), inline link
/// (`[text](url)`), and reference link or image (`[text][ref]`) removed. A
/// label counts nested brackets, so a badge's `[![alt](img)](url)` goes in
/// one pass. The first construct that fails to close keeps the rest of the
/// text as it is; a label followed by neither `(` nor `[` stays as text.
pub open spec fn links_stripped(s: Seq<char>, i: int) -> Seq<char>
    decreases s.len() - i,
{
    if i < 0 || i >= s.len() {
        seq![]
    } else {
        let image = s[i] == '!' && i + 1 < s.len() && s[i + 1] == '[';
        let link = s[i] == '[';
        if !image && !link {
            seq![s[i]] + links_stripped(s, i + 1)
        } else {
            let bracket = if image {
                i + 1
            } else {
                i
            };
            let close = label_close(s, bracket + 1, 1);
            proof {
                lemma_label_close(s, bracket + 1, 1);
            }
            if close < 0 {
                s.subrange(i, s.len() as int)
            } else {
                let after = close + 1;
                if after < s.len() && s[after] == '(' {
                    let k = index_from(s, after + 1, ')');
                    proof {
                        lemma_index_from(s, after + 1, ')');
                    }
                    if k < 0 {
                        s.subrange(i, s.len() as int)
                    } else {
                        links_stripped(s, k + 1)
                    }
                } else if after < s.len() && s[after] == '[' {
                    let k = index_from(s, after + 1, ']');
                    proof {
                        lemma_index_from(s, after + 1, ']');
                    }
                    if k < 0 {
                        s.subrange(i, s.len() as int)
                    } else {
                        links_stripped(s, k + 1)
                    }
                } else {
                    s.subrange(i, after) + links_stripped(s, after)
                }
            }
        }
    }
}

fn index_from_exec(s: &Vec<char>, from: usize, c: char) -> (r: Option<usize>)
    requires
        from <= s@.len(),
    ensures
        match r {
            Some(k) => index_from(s@, from as int, c) == k && from <= k < s@.len(),
            None => index_from(s@, from as int, c) == -1,
        },
{
    let mut k = from;
    while k < s.len()
        invariant
            from <= k <= s@.len(),
            index_from(s@, from as int, c) == index_from(s@, k as int, c),
        decreases s.len() - k,
    {
        if s[k] == c {
            return Some(k);
        }
        k += 1;
    }
    None
}

fn label_close_exec(s: &Vec<char>, start: usize) -> (r: Option<usize>)
    requires
        1 <= start <= s@.len(),
    ensures
        match r {
            Some(k) => label_close(s@, start as int, 1) == k && start <= k < s@.len(),
            None => label_close(s@, start as int, 1) == -1,
        },
{
    let mut depth: usize = 1;
    let mut cursor = start;
    while cursor < s.len()
        invariant
            1 <= start <= cursor <= s@.len(),
            1 <= depth <= cursor - start + 1,
            label_close(s@, start as int, 1) == label_close(s@, cursor as int, depth as int),
        decreases s.len() - cursor,
    {
        if s[cursor] == '[' {
            depth += 1;
        } else if s[cursor] == ']' {
            if depth == 1 {
                return Some(cursor);
            }
            depth -= 1;
        }
        cursor += 1;
    }
    None
}

fn push_chars(out: &mut Vec<char>, s: &Vec<char>, lo: usize, hi: usize)
    requires
        lo <= hi <= s@.len(),
    ensures
        final(out)@ == old(out)@ + s@.subrange(lo as int, hi as int),
{
    let mut i = lo;
    while i < hi
        invariant
            lo <= i <= hi <= s@.len(),
            out@ == old(out)@ + s@.subrange(lo as int, i as int),
        decreases hi - i,
    {
        out.push(s[i]);
        i += 1;
        assert(out@ =~= old(out)@ + s@.subrange(lo as int, i as int));
    }
}

/// `s` with every Markdown link and image removed, in a single forward pass.
fn strip_links_in(s: &Vec<char>) -> (out: Vec<char>)
    ensures
        out@ == links_stripped(s@, 0),
{
    let n = s.len();
    let mut out: Vec<char> = Vec::new();
    let mut i: usize = 0;
    while i < n
        invariant
            i <= n == s@.len(),
            links_stripped(s@, 0) == out@ + links_stripped(s@, i as int),
        decreases n - i,
    {
        let image = s[i] == '!' && i + 1 < n && s[i + 1] == '[';
        let link = s[i] == '[';
        if !image && !link {
            let ghost before = out@;
            out.push(s[i]);
            proof {
                assert(links_stripped(s@, i as int) == seq![s@[i as int]] + links_stripped(s@, i + 1));
                assert(out@ + links_stripped(s@, i + 1) =~= before + links_stripped(s@, i as int));
            }
            i += 1;
            continue;
        }
        let bracket = if image {
            i + 1
        } else {
            i
        };
        let close = match label_close_exec(s, bracket + 1) {
            Some(close) => close,
            None => {
                push_chars(&mut out, s, i, n);
                assert(links_stripped(s@, n as int) =~= Seq::<char>::empty());
                assert(out@ =~= links_stripped(s@, 0));
                return out;
            },
        };
        let after = close + 1;
        if after < n && s[after] == '(' {
            match index_from_exec(s, after + 1, ')') {
                Some(k) => {
                    i = k + 1;
                    continue;
                },
                None => {
                    push_chars(&mut out, s, i, n);
                    assert(out@ =~= links_stripped(s@, 0));
                    return out;
                },
            }
        }
        if after < n && s[after] == '[' {
            match index_from_exec(s, after + 1, ']') {
                Some(k) => {
                    i = k + 1;
                    continue;
                },
                None => {
                    push_chars(&mut out, s, i, n);
                    assert(out@ =~= links_stripped(s@, 0));
                    return out;
                },
            }
        }
        let ghost before = out@;
        push_chars(&mut out, s, i, after);
        assert(before + links_stripped(s@, i as int) =~= out@ + links_stripped(s@, after as int));
        i = after;
    }
    assert(out@ + links_stripped(s@, n as int) =~= out@);
    out
}

/// Strips every Markdown image, inline link, and reference link or image
/// from `line`, in one forward pass with no backtracking.
pub fn strip_links_and_images(line: &str) -> (stripped: String)
    ensures
        stripped@ == links_stripped(line@, 0),
{
    let chars = text::chars_of(line);
    let out = strip_links_in(&chars);
    assert(out@.subrange(0, out@.len() as int) =~= out@);
    text::string_of(&out, 0, out.len())
}

/// What a line of badges leaves once its links and images are gone.
pub open spec fn is_badge_char(c: char) -> bool {
    is_space(c) || c == '(' || c == ')' || c == '[' || c == ']' || c == '!' || c == '<' || c == '>' || c == '|' || c
        == '-'
}

/// A row of badges and nothing else: once every link and image is stripped,
/// only whitespace and `()[]!<>|-` remain.
pub open spec fn is_badge_row(t: Seq<char>) -> bool {
    forall|i: int| 0 <= i < links_stripped(t, 0).len() ==> is_badge_char(#[trigger] links_stripped(t, 0)[i])
}

fn badge_row_at(v: &Vec<char>, a: usize, b: usize) -> (r: bool)
    requires
        a <= b <= v@.len(),
    ensures
        r == is_badge_row(v@.subrange(a as int, b as int)),
{
    let mut line: Vec<char> = Vec::new();
    push_chars(&mut line, v, a, b);
    assert(line@ =~= v@.subrange(a as int, b as int));
    let rest = strip_links_in(&line);
    let mut i: usize = 0;
    while i < rest.len()
        invariant
            i <= rest@.len(),
            a <= b <= v@.len(),
            rest@ == links_stripped(v@.subrange(a as int, b as int), 0),
            forall|j: int| 0 <= j < i ==> is_badge_char(#[trigger] rest@[j]),
        decreases rest.len() - i,
    {
        let c = rest[i];
        if !(text::is_whitespace(c) || c == '(' || c == ')' || c == '[' || c == ']' || c == '!' || c == '<' || c
            == '>' || c == '|' || c == '-') {
            assert(links_stripped(v@.subrange(a as int, b as int), 0)[i as int] == c);
            assert(!is_badge_char(c));
            return false;
        }
        i += 1;
    }
    true
}


/// Lines that come before a paragraph and are not prose: ATX headings,
/// Setext underlines, horizontal rules, HTML blocks, table rows, and rows of
/// badges.
pub open spec fn skipped_before_prose(t: Seq<char>) -> bool {
    ||| starts_with_char(t, '#')
    ||| is_setext_underline_text(t)
    ||| is_rule(t)
    ||| starts_with_char(t, '<')
    ||| starts_with_char(t, '|')
    ||| is_badge_row(t)
}

/// Line `k` is the title of a Setext heading: the next line underlines it.
pub open spec fn underlined(lines: Seq<Seq<char>>, k: int) -> bool {
    k + 1 < lines.len() && is_setext_underline_text(trim(lines[k + 1]))
}

/// The first line from `k` that begins a paragraph, or `-1`: blank lines,
/// fenced code (delimiters included), the lines skipped before prose, and
/// both lines of a Setext heading are passed over.
pub open spec fn first_prose_line(lines: Seq<Seq<char>>, k: int, in_fence: bool) -> int
    decreases lines.len() - k,
{
    if k < 0 || k >= lines.len() {
        -1
    } else {
        let t = trim(lines[k]);
        if in_fence {
            first_prose_line(lines, k + 1, !is_fence(t))
        } else if t.len() == 0 {
            first_prose_line(lines, k + 1, false)
        } else if is_fence(t) {
            first_prose_line(lines, k + 1, true)
        } else if skipped_before_prose(t) {
            first_prose_line(lines, k + 1, false)
        } else if underlined(lines, k) {
            first_prose_line(lines, k + 2, false)
        } else {
            k
        }
    }
}

/// A line that ends a paragraph before it: blank, an ATX heading, a fence
/// delimiter, a Setext underline, a horizontal rule, or a table row.
pub open spec fn ends_paragraph(t: Seq<char>) -> bool {
    ||| t.len() == 0
    ||| starts_with_char(t, '#')
    ||| is_fence(t)
    ||| is_setext_underline_text(t)
    ||| is_rule(t)
    ||| starts_with_char(t, '|')
}

/// The rest of a paragraph from line `k`: each line trimmed and preceded by
/// one space, until a line that ends the paragraph or is the title of a
/// following Setext heading.
pub open spec fn paragraph_tail(lines: Seq<Seq<char>>, k: int) -> Seq<char>
    decreases lines.len() - k,
{
    if k < 0 || k >= lines.len() || ends_paragraph(trim(lines[k])) || underlined(lines, k) {
        seq![]
    } else {
        seq![' '] + trim(lines[k]) + paragraph_tail(lines, k + 1)
    }
}

/// The README's lines once front matter and HTML comments are removed.
pub open spec fn readme_lines(content: Seq<char>) -> Seq<Seq<char>> {
    char_lines(without_comments(content.subrange(front_matter_end(content), content.len() as int)))
}

/// The README's first substantive paragraph, its lines trimmed and joined
/// with single spaces; `None` when the README has no prose.
pub open spec fn readme_paragraph(content: Seq<char>) -> Option<Seq<char>> {
    let lines = readme_lines(content);
    let k = first_prose_line(lines, 0, false);
    if k < 0 {
        None
    } else {
        Some(trim(lines[k]) + paragraph_tail(lines, k + 1))
    }
}

fn noise_at(v: &Vec<char>, a: usize, b: usize) -> (r: bool)
    requires
        a <= b <= v@.len(),
    ensures
        r == skipped_before_prose(v@.subrange(a as int, b as int)),
{
    (a < b && (v[a] == '#' || v[a] == '<' || v[a] == '|')) || setext_at(v, a, b) || rule_at(v, a, b)
        || badge_row_at(v, a, b)
}

fn ends_paragraph_at(v: &Vec<char>, a: usize, b: usize) -> (r: bool)
    requires
        a <= b <= v@.len(),
    ensures
        r == ends_paragraph(v@.subrange(a as int, b as int)),
{
    a == b || v[a] == '#' || v[a] == '|' || fence_at(v, a, b) || setext_at(v, a, b) || rule_at(v, a, b)
}

/// Whether the line of `v` starting at `pos`, if there is one, is a Setext
/// underline.
fn underline_at(v: &Vec<char>, pos: usize, Ghost(lines): Ghost<Seq<Seq<char>>>, Ghost(k): Ghost<int>) -> (r: bool)
    requires
        pos <= v@.len(),
        0 <= k,
        k <= lines.len(),
        lines.subrange(k, lines.len() as int) == char_lines(v@.subrange(pos as int, v@.len() as int)),
    ensures
        r == (k < lines.len() && is_setext_underline_text(trim(lines[k]))),
{
    if pos >= v.len() {
        assert(lines.subrange(k, lines.len() as int).len() == 0);
        return false;
    }
    let (lo, hi, _next) = text::next_line(v.as_slice(), pos, '\n', '\r');
    proof {
        let rest_lines = char_lines(v@.subrange(pos as int, v@.len() as int));
        assert(rest_lines.len() >= 1 && rest_lines[0] == v@.subrange(lo as int, hi as int));
        assert(lines.subrange(k, lines.len() as int)[0] == lines[k]);
    }
    let (a, b) = text::trim_bounds(v, lo, hi);
    setext_at(v, a, b)
}

/// Finds the first substantive paragraph in README `content`, or `None` when
/// it has no prose. Front matter and comments are removed first; then blank
/// lines, fenced code, headings (both lines of a Setext one), rules, HTML
/// blocks, table rows and badge rows are passed over. The paragraph's lines
/// are joined with single spaces until a blank line, a heading, a fence, a
/// rule, a table row, or the title of a following Setext heading.
pub fn extract_readme_paragraph(content: &str) -> (paragraph: Option<String>)
    ensures
        match readme_paragraph(content@) {
            Some(text) => paragraph matches Some(p) && p@ == text,
            None => paragraph is None,
        },
{
    let chars = text::chars_of(content);
    let start = front_matter_skip(&chars);
    let v = strip_comments_in(&chars, start, chars.len());
    proof {
        assert(content@.subrange(front_matter_end(content@), content@.len() as int) =~= chars@.subrange(
            start as int,
            chars@.len() as int,
        ));
    }
    let n = v.len();
    let ghost lines = char_lines(v@);
    assert(lines == readme_lines(content@));
    let mut pos: usize = 0;
    let ghost mut k: int = 0;
    let mut in_fence = false;
    assert(v@.subrange(0, n as int) =~= v@);
    assert(lines.subrange(0, lines.len() as int) =~= lines);
    let mut first_a: usize = 0;
    let mut first_b: usize = 0;
    let mut first_next: usize = 0;
    loop
        invariant_except_break
            pos <= n == v@.len(),
            0 <= k <= lines.len(),
            lines == char_lines(v@),
            lines == readme_lines(content@),
            lines.subrange(k, lines.len() as int) == char_lines(v@.subrange(pos as int, n as int)),
            first_prose_line(lines, 0, false) == first_prose_line(lines, k, in_fence),
        ensures
            pos < n,
            0 <= k < lines.len(),
            first_prose_line(lines, 0, false) == k,
            first_a <= first_b <= first_next <= n,
            v@.subrange(first_a as int, first_b as int) == trim(lines[k]),
            lines.subrange(k + 1, lines.len() as int) == char_lines(v@.subrange(first_next as int, n as int)),
        decreases n - pos,
    {
        if pos >= n {
            assert(v@.subrange(pos as int, n as int).len() == 0);
            assert(lines.subrange(k, lines.len() as int).len() == 0);
            assert(k == lines.len());
            assert(first_prose_line(lines, 0, false) == -1);
            return None;
        }
        let (lo, hi, next) = text::next_line(v.as_slice(), pos, '\n', '\r');
        proof {
            let rest_lines = char_lines(v@.subrange(pos as int, n as int));
            assert(rest_lines.len() >= 1 && rest_lines[0] == v@.subrange(lo as int, hi as int));
            assert(rest_lines.drop_first() =~= char_lines(v@.subrange(next as int, n as int)));
            let tail = lines.subrange(k, lines.len() as int);
            assert(tail[0] == lines[k]);
            assert(lines.subrange(k + 1, lines.len() as int) =~= tail.drop_first());
        }
        let (a, b) = text::trim_bounds(&v, lo, hi);
        if in_fence {
            if fence_at(&v, a, b) {
                in_fence = false;
            }
            pos = next;
            proof {
                k = k + 1;
            }
            continue;
        }
        if a == b {
            pos = next;
            proof {
                k = k + 1;
            }
            continue;
        }
        if fence_at(&v, a, b) {
            in_fence = true;
            pos = next;
            proof {
                k = k + 1;
            }
            continue;
        }
        if noise_at(&v, a, b) {
            pos = next;
            proof {
                k = k + 1;
            }
            continue;
        }
        if underline_at(&v, next, Ghost(lines), Ghost(k + 1)) {
            let (lo2, hi2, next2) = text::next_line(v.as_slice(), next, '\n', '\r');
            proof {
                let rest_lines = char_lines(v@.subrange(next as int, n as int));
                assert(rest_lines.len() >= 1 && rest_lines[0] == v@.subrange(lo2 as int, hi2 as int));
                assert(rest_lines.drop_first() =~= char_lines(v@.subrange(next2 as int, n as int)));
                let tail = lines.subrange(k + 1, lines.len() as int);
                assert(tail[0] == lines[k + 1]);
                assert(lines.subrange(k + 2, lines.len() as int) =~= tail.drop_first());
            }
            pos = next2;
            proof {
                k = k + 2;
            }
            continue;
        }
        first_a = a;
        first_b = b;
        first_next = next;
        break;
    }
    let ghost first = k;
    let mut out = text::string_of(&v, first_a, first_b);
    pos = first_next;
    proof {
        k = k + 1;
    }
    loop
        invariant
            pos <= n == v@.len(),
            0 <= first,
            first + 1 <= k <= lines.len(),
            lines == char_lines(v@),
            lines == readme_lines(content@),
            first_prose_line(lines, 0, false) == first,
            lines.subrange(k, lines.len() as int) == char_lines(v@.subrange(pos as int, n as int)),
            trim(lines[first]) + paragraph_tail(lines, first + 1) == out@ + paragraph_tail(lines, k),
        ensures
            out@ == trim(lines[first]) + paragraph_tail(lines, first + 1),
            lines == readme_lines(content@),
            first_prose_line(lines, 0, false) == first,
            0 <= first,
        decreases n - pos,
    {
        if pos >= n {
            assert(v@.subrange(pos as int, n as int).len() == 0);
            assert(lines.subrange(k, lines.len() as int).len() == 0);
            assert(out@ + paragraph_tail(lines, k) =~= out@);
            break;
        }
        let (lo, hi, next) = text::next_line(v.as_slice(), pos, '\n', '\r');
        proof {
            let rest_lines = char_lines(v@.subrange(pos as int, n as int));
            assert(rest_lines.len() >= 1 && rest_lines[0] == v@.subrange(lo as int, hi as int));
            assert(rest_lines.drop_first() =~= char_lines(v@.subrange(next as int, n as int)));
            let tail = lines.subrange(k, lines.len() as int);
            assert(tail[0] == lines[k]);
            assert(lines.subrange(k + 1, lines.len() as int) =~= tail.drop_first());
        }
        let (a, b) = text::trim_bounds(&v, lo, hi);
        if ends_paragraph_at(&v, a, b) || underline_at(&v, next, Ghost(lines), Ghost(k + 1)) {
            assert(out@ + paragraph_tail(lines, k) =~= out@);
            break;
        }
        let ghost before = out@;
        out.push(' ');
        text::push_range(&mut out, &v, a, b);
        proof {
            assert(out@ + paragraph_tail(lines, k + 1) =~= before + paragraph_tail(lines, k));
            k = k + 1;
        }
        pos = next;
    }
    Some(out)
}


/// What reading a manifest for a description gave.
#[derive(Debug, Clone, PartialEq, Eq)]
pub enum ManifestExtract {
    /// A string description was present.
    Found(String),
    /// The manifest parsed but states no usable description: a miss, not a
    /// failure. A non-string value such as `description.workspace = true`
    /// is one.
    Miss,
    /// The content does not parse as its format at all.
    Malformed,
}

/// `extract` reports `description`: found when there is one, else a miss.
pub open spec fn reports(extract: ManifestExtract, description: Option<Seq<char>>) -> bool {
    match description {
        Some(text) => extract matches ManifestExtract::Found(found) && found@ == text,
        None => extract is Miss,
    }
}

/// `Cargo.toml`'s description: `[package].description`, when it is a string.
pub open spec fn cargo_description(document: Node) -> Option<Seq<char>> {
    text_at(document, seq!["package"@, "description"@])
}

/// `pyproject.toml`'s description: `[project].description`, else
/// `[tool.poetry].description`, whichever is first a string.
pub open spec fn pyproject_description(document: Node) -> Option<Seq<char>> {
    match text_at(document, seq!["project"@, "description"@]) {
        Some(text) => Some(text),
        None => text_at(document, seq!["tool"@, "poetry"@, "description"@]),
    }
}

/// `package.json`'s or `composer.json`'s description: the top-level
/// `description`, when it is a string.
pub open spec fn json_description(document: Node) -> Option<Seq<char>> {
    text_at(document, seq!["description"@])
}

/// The string under `table`.`key` in a parsed document, if there is one.
pub fn toml_text_at(value: &Node, table: &str, key: &str) -> (found: Option<String>)
    ensures
        match found {
            Some(s) => text_at(*value, seq![table@, key@]) == Some(s@),
            None => text_at(*value, seq![table@, key@]) is None,
        },
{
    let ghost path = seq![table@, key@];
    reveal_with_fuel(text_at, 3);
    assert(path.drop_first() =~= seq![key@]);
    assert(path.drop_first().drop_first() =~= Seq::<Seq<char>>::empty());
    match document::get(value, table) {
        Some(inner) => match document::get(inner, key) {
            Some(field) => document::text_of(field),
            None => None,
        },
        None => None,
    }
}

/// `Cargo.toml`'s `[package].description`.
pub fn extract_cargo(content: &str) -> (extract: ManifestExtract)
    ensures
        match toml_parsed(content@) {
            Ok(document) => reports(extract, cargo_description(document)),
            Err(_) => extract is Malformed,
        },
{
    match boundary::parse_toml(content) {
        Ok(value) => match toml_text_at(&value, "package", "description") {
            Some(description) => ManifestExtract::Found(description),
            None => ManifestExtract::Miss,
        },
        Err(_) => ManifestExtract::Malformed,
    }
}

/// `pyproject.toml`'s `[project].description`, falling back to
/// `[tool.poetry].description`.
pub fn extract_pyproject(content: &str) -> (extract: ManifestExtract)
    ensures
        match toml_parsed(content@) {
            Ok(document) => reports(extract, pyproject_description(document)),
            Err(_) => extract is Malformed,
        },
{
    match boundary::parse_toml(content) {
        Ok(value) => {
            let description = match toml_text_at(&value, "project", "description") {
                Some(description) => Some(description),
                None => match document::get(&value, "tool") {
                    Some(tool) => {
                        let found = toml_text_at(tool, "poetry", "description");
                        proof {
                            let path = seq!["tool"@, "poetry"@, "description"@];
                            assert(path.drop_first() =~= seq!["poetry"@, "description"@]);
                        }
                        found
                    },
                    None => None,
                },
            };
            match description {
                Some(description) => ManifestExtract::Found(description),
                None => ManifestExtract::Miss,
            }
        },
        Err(_) => ManifestExtract::Malformed,
    }
}

/// The top-level `description` of `package.json` or `composer.json`, which
/// share that shape.
pub fn extract_json_description(content: &str) -> (extract: ManifestExtract)
    ensures
        match json_parsed(content@) {
            Some(document) => reports(extract, json_description(document)),
            None => extract is Malformed,
        },
{
    match boundary::parse_json(content) {
        Some(value) => {
            let description = match document::get(&value, "description") {
                Some(field) => document::text_of(field),
                None => None,
            };
            proof {
                let path = seq!["description"@];
                assert(path.drop_first() =~= Seq::<Seq<char>>::empty());
            }
            match description {
                Some(description) => ManifestExtract::Found(description),
                None => ManifestExtract::Miss,
            }
        },
        None => ManifestExtract::Malformed,
    }
}

pub open spec fn module_keyword() -> Seq<char> {
    seq!['m', 'o', 'd', 'u', 'l', 'e']
}

pub open spec fn line_comment() -> Seq<char> {
    seq!['/', '/']
}

/// The module path a `go.mod` line declares: a trimmed line that starts
/// with `module` and one space or tab; the rest, trimmed, with a trailing
/// `// comment` removed. Empty, or the block form's `(`, declares none.
pub open spec fn module_of(line: Seq<char>) -> Option<Seq<char>> {
    let t = trim(line);
    if t.len() >= 7 && t.take(6) == module_keyword() && (t[6] == ' ' || t[6] == '\t') {
        let rest = trim(t.subrange(7, t.len() as int));
        let c = text::first_match(rest, line_comment());
        let statement = if c >= 0 {
            trim(rest.take(c))
        } else {
            rest
        };
        if statement.len() == 0 || statement == seq!['('] {
            None
        } else {
            Some(statement)
        }
    } else {
        None
    }
}

/// How many of `go.mod`'s lines are looked at.
pub const GO_MOD_LINES: usize = 200;

/// The first module path among `lines[k..]`, looking no further than line
/// [`GO_MOD_LINES`].
pub open spec fn go_module(lines: Seq<Seq<char>>, k: int) -> Option<Seq<char>>
    decreases lines.len() - k,
{
    if k < 0 || k >= lines.len() || k >= GO_MOD_LINES {
        None
    } else {
        match module_of(lines[k]) {
            Some(statement) => Some(statement),
            None => go_module(lines, k + 1),
        }
    }
}

fn module_in_line(v: &Vec<char>, lo: usize, hi: usize) -> (statement: Option<String>)
    requires
        lo <= hi <= v@.len(),
    ensures
        match module_of(v@.subrange(lo as int, hi as int)) {
            Some(text) => statement matches Some(s) && s@ == text,
            None => statement is None,
        },
{
    let (a, b) = text::trim_bounds(v, lo, hi);
    let ghost t = v@.subrange(a as int, b as int);
    proof {
        reveal_strlit("module");
        assert("module"@ =~= module_keyword());
    }
    if b - a < 7 || !text::chars_start_with(v, a, b, "module") || !(v[a + 6] == ' ' || v[a + 6] == '\t') {
        proof {
            reveal_strlit("module");
            if t.len() >= 7 && t.take(6) == module_keyword() {
                assert(v@.subrange(a as int, a + 6) =~= t.take(6));
                assert(t[6] == v@[a + 6]);
            }
        }
        return None;
    }
    proof {
        reveal_strlit("module");
        assert(t.take(6) =~= v@.subrange(a as int, a + 6));
        assert(t[6] == v@[a + 6]);
        assert(t.subrange(7, t.len() as int) =~= v@.subrange(a + 7, b as int));
    }
    let (c, d) = text::trim_bounds(v, a + 7, b);
    let ghost rest = v@.subrange(c as int, d as int);
    let comment = vec!['/', '/'];
    assert(comment@ =~= line_comment());
    let (e, f) = match text::find(v, c, d, &comment) {
        Some(at) => {
            assert(rest.take(at as int) =~= v@.subrange(c as int, c + at));
            text::trim_bounds(v, c, c + at)
        },
        None => (c, d),
    };
    let ghost statement = v@.subrange(e as int, f as int);
    if e == f || (f - e == 1 && v[e] == '(') {
        proof {
            if f - e == 1 && v@[e as int] == '(' {
                assert(statement =~= seq!['(']);
            }
        }
        return None;
    }
    proof {
        if statement == seq!['('] {
            assert(statement[0] == '(');
        }
        assert(trim(v@.subrange(lo as int, hi as int)) == t);
        assert(t.len() >= 7 && t.take(6) == module_keyword() && (t[6] == ' ' || t[6] == '\t'));
        assert(trim(t.subrange(7, t.len() as int)) == rest);
        let at = text::first_match(rest, line_comment());
        assert(statement == (if at >= 0 { trim(rest.take(at)) } else { rest }));
    }
    Some(text::string_of(v, e, f))
}

/// `go.mod`'s `module` directive, from at most its first
/// [`GO_MOD_LINES`] lines. A missing or unrecognized directive is a miss,
/// never malformed.
pub fn extract_go_mod(content: &str) -> (extract: ManifestExtract)
    ensures
        match go_module(char_lines(content@), 0) {
            Some(text) => extract matches ManifestExtract::Found(s) && s@ == text,
            None => extract is Miss,
        },
{
    let v = text::chars_of(content);
    let n = v.len();
    let ghost lines = char_lines(v@);
    let mut pos: usize = 0;
    let mut k: usize = 0;
    assert(v@.subrange(0, n as int) =~= v@);
    assert(lines.subrange(0, lines.len() as int) =~= lines);
    while pos < n && k < GO_MOD_LINES
        invariant
            pos <= n == v@.len(),
            k <= lines.len(),
            lines == char_lines(v@),
            v@ == content@,
            lines.subrange(k as int, lines.len() as int) == char_lines(v@.subrange(pos as int, n as int)),
            go_module(lines, 0) == go_module(lines, k as int),
        decreases n - pos,
    {
        let (lo, hi, next) = text::next_line(v.as_slice(), pos, '\n', '\r');
        proof {
            let rest_lines = char_lines(v@.subrange(pos as int, n as int));
            assert(rest_lines.len() >= 1 && rest_lines[0] == v@.subrange(lo as int, hi as int));
            assert(rest_lines.drop_first() =~= char_lines(v@.subrange(next as int, n as int)));
            let tail = lines.subrange(k as int, lines.len() as int);
            assert(tail[0] == lines[k as int]);
            assert(lines.subrange(k + 1, lines.len() as int) =~= tail.drop_first());
        }
        match module_in_line(&v, lo, hi) {
            Some(statement) => {
                return ManifestExtract::Found(statement);
            },
            None => {},
        }
        pos = next;
        k += 1;
    }
    proof {
        if pos >= n {
            assert(v@.subrange(pos as int, n as int).len() == 0);
            assert(lines.subrange(k as int, lines.len() as int).len() == 0);
        }
    }
    ManifestExtract::Miss
}

/// The purpose a source yields: its normalized statement, capped, or none
/// when nothing remains once whitespace is normalized.
pub open spec fn purpose_from(
    raw: Seq<char>,
    evidence: Seq<char>,
    source: PurposeSource,
    confidence: Confidence,
    purpose: Option<ProjectPurpose>,
) -> bool {
    let n = normalized(raw);
    if n.len() == 0 {
        purpose is None
    } else {
        purpose matches Some(p) && p.statement@ == capped(n).0 && p.truncated == capped(n).1 && p.evidence@
            == evidence && p.source == source && p.confidence == confidence
    }
}

/// Normalizes `raw` and, if anything remains, caps it: the shared last step
/// for every source in the table.
pub fn finish_purpose(raw: &str, evidence: &str, source: PurposeSource, confidence: Confidence) -> (purpose: Option<ProjectPurpose>)
    ensures
        purpose_from(raw@, evidence@, source, confidence, purpose),
{
    let normalized_text = normalize_statement(raw);
    if normalized_text.as_str().is_empty() {
        return None;
    }
    let (statement, truncated) = cap_statement(normalized_text.as_str());
    Some(ProjectPurpose { statement, evidence: text::owned(evidence), source, confidence, truncated })
}

/// A README candidate's place in the lookup order, by its lower-cased name:
/// `readme.md`, `readme.markdown`, `readme.rst`, `readme.txt`, `readme`;
/// `-1` for any other name.
pub open spec fn readme_rank(lower: Seq<char>) -> int {
    if lower == "readme.md"@ {
        0
    } else if lower == "readme.markdown"@ {
        1
    } else if lower == "readme.rst"@ {
        2
    } else if lower == "readme.txt"@ {
        3
    } else if lower == "readme"@ {
        4
    } else {
        -1
    }
}

/// `a` is chosen over `b`: an earlier candidate, or the same one under a
/// name no greater in `String` order.
pub open spec fn readme_precedes(a: Seq<char>, b: Seq<char>) -> bool {
    readme_rank(ascii_lower(a)) < readme_rank(ascii_lower(b)) || (readme_rank(ascii_lower(a)) == readme_rank(
        ascii_lower(b),
    ) && str_le(a, b))
}

fn readme_rank_exec(name: &str) -> (rank: i8)
    ensures
        rank == readme_rank(ascii_lower(name@)),
{
    let lower = crate::scan::ascii_lowercase(name);
    let lower = lower.as_str();
    if text::str_eq(lower, "readme.md") {
        0
    } else if text::str_eq(lower, "readme.markdown") {
        1
    } else if text::str_eq(lower, "readme.rst") {
        2
    } else if text::str_eq(lower, "readme.txt") {
        3
    } else if text::str_eq(lower, "readme") {
        4
    } else {
        -1
    }
}

/// `chosen` is the README among `names`: a candidate no other candidate
/// precedes, or nothing when none is a candidate.
pub open spec fn chooses_readme(names: Seq<String>, chosen: Option<String>) -> bool {
    match chosen {
        Some(name) => {
            &&& exists|i: int| 0 <= i < names.len() && #[trigger] names[i]@ == name@
            &&& readme_rank(ascii_lower(name@)) >= 0
            &&& forall|j: int|
                0 <= j < names.len() && readme_rank(ascii_lower(#[trigger] names[j]@)) >= 0 ==> readme_precedes(
                    name@,
                    names[j]@,
                )
        },
        None => forall|j: int| 0 <= j < names.len() ==> readme_rank(ascii_lower(#[trigger] names[j]@)) < 0,
    }
}

/// One of the five names a README goes by, in lower case.
pub open spec fn is_readme_name(lower: Seq<char>) -> bool {
    lower == "readme.md"@ || lower == "readme.markdown"@ || lower == "readme.rst"@ || lower == "readme.txt"@
        || lower == "readme"@
}

/// The README names are looked up in this order, in any letter case:
/// `readme.md`, `readme.markdown`, `readme.rst`, `readme.txt`, `readme`;
/// any other name is no candidate.
pub proof fn readme_candidates_in_lookup_order(name: Seq<char>)
    ensures
        ascii_lower(name) == "readme.md"@ ==> readme_rank(ascii_lower(name)) == 0,
        ascii_lower(name) == "readme.markdown"@ ==> readme_rank(ascii_lower(name)) == 1,
        ascii_lower(name) == "readme.rst"@ ==> readme_rank(ascii_lower(name)) == 2,
        ascii_lower(name) == "readme.txt"@ ==> readme_rank(ascii_lower(name)) == 3,
        ascii_lower(name) == "readme"@ ==> readme_rank(ascii_lower(name)) == 4,
        !is_readme_name(ascii_lower(name)) ==> readme_rank(ascii_lower(name)) == -1,
{
    reveal_strlit("readme.md");
    reveal_strlit("readme.markdown");
    reveal_strlit("readme.rst");
    reveal_strlit("readme.txt");
    reveal_strlit("readme");
    assert("readme.md"@.len() == 9 && "readme.markdown"@.len() == 15 && "readme.rst"@.len() == 10
        && "readme.txt"@.len() == 10 && "readme"@.len() == 6);
    assert("readme.rst"@[7] != "readme.txt"@[7]);
}

/// A listing holding exactly one README name, in any letter case, has that
/// file chosen.
pub proof fn the_only_readme_is_chosen(names: Seq<String>, k: int, chosen: Option<String>)
    requires
        chooses_readme(names, chosen),
        0 <= k < names.len(),
        is_readme_name(ascii_lower(names[k]@)),
        forall|j: int| 0 <= j < names.len() && j != k ==> !is_readme_name(ascii_lower(#[trigger] names[j]@)),
    ensures
        chosen matches Some(name) && name@ == names[k]@,
{
    readme_candidates_in_lookup_order(names[k]@);
    assert(readme_rank(ascii_lower(names[k]@)) >= 0);
    match chosen {
        Some(name) => {
            let i = choose|i: int| 0 <= i < names.len() && #[trigger] names[i]@ == name@;
            if i != k {
                readme_candidates_in_lookup_order(names[i]@);
                assert(!is_readme_name(ascii_lower(names[i]@)));
            }
        },
        None => {
            assert(readme_rank(ascii_lower(names[k]@)) < 0);
        },
    }
}

/// Chooses the README among the plain files at the root, `names` being their
/// actual names: the earliest candidate in the lookup order, a tie between
/// names differing only in case going to the smaller name, so the choice
/// never depends on directory order.
pub fn choose_readme(names: &Vec<String>) -> (chosen: Option<String>)
    ensures
        chooses_readme(names@, chosen),
{
    let mut best: Option<(i8, usize)> = None;
    let mut i: usize = 0;
    while i < names.len()
        invariant
            i <= names@.len(),
            match best {
                Some((rank, at)) => {
                    &&& at < i
                    &&& rank == readme_rank(ascii_lower(names@[at as int]@))
                    &&& rank >= 0
                    &&& forall|j: int|
                        0 <= j < i && readme_rank(ascii_lower(#[trigger] names@[j]@)) >= 0 ==> readme_precedes(
                            names@[at as int]@,
                            names@[j]@,
                        )
                },
                None => forall|j: int| 0 <= j < i ==> readme_rank(ascii_lower(#[trigger] names@[j]@)) < 0,
            },
        decreases names.len() - i,
    {
        let rank = readme_rank_exec(names[i].as_str());
        if rank >= 0 {
            let take = match best {
                None => true,
                Some((best_rank, at)) => rank < best_rank || (rank == best_rank && !text::str_le_exec(
                    names[at].as_str(),
                    names[i].as_str(),
                )),
            };
            proof {
                text::lemma_str_le_reflexive(names@[i as int]@);
                match best {
                    Some((best_rank, at)) => {
                        text::lemma_str_le_total(names@[at as int]@, names@[i as int]@);
                        if take {
                            assert forall|j: int|
                                0 <= j < i + 1 && readme_rank(ascii_lower(#[trigger] names@[j]@)) >= 0 implies readme_precedes(
                                names@[i as int]@,
                                names@[j]@,
                            ) by {
                                if j < i && rank == best_rank && readme_rank(ascii_lower(names@[j]@)) == rank {
                                    text::lemma_str_le_transitive(names@[i as int]@, names@[at as int]@, names@[j]@);
                                }
                            }
                        }
                    },
                    None => {},
                }
            }
            if take {
                best = Some((rank, i));
            }
        }
        i += 1;
    }
    match best {
        Some((_, at)) => Some(names[at].clone()),
        None => None,
    }
}

/// The README chosen never depends on the order the directory lists its
/// files in: any two choices made over the same names, in any order, are
/// the same name.
pub proof fn readme_choice_ignores_listing_order(first: Seq<Seq<char>>, second: Seq<Seq<char>>, a: Seq<char>, b: Seq<char>)
    requires
        forall|x: Seq<char>| first.contains(x) <==> second.contains(x),
        first.contains(a),
        readme_rank(ascii_lower(a)) >= 0,
        forall|j: int| 0 <= j < first.len() && readme_rank(ascii_lower(#[trigger] first[j])) >= 0 ==> readme_precedes(a, first[j]),
        second.contains(b),
        readme_rank(ascii_lower(b)) >= 0,
        forall|j: int| 0 <= j < second.len() && readme_rank(ascii_lower(#[trigger] second[j])) >= 0 ==> readme_precedes(b, second[j]),
    ensures
        a == b,
{
    assert(second.contains(a));
    assert(first.contains(b));
    let i = choose|i: int| 0 <= i < second.len() && second[i] == a;
    let j = choose|j: int| 0 <= j < first.len() && first[j] == b;
    assert(readme_precedes(b, second[i]));
    assert(readme_precedes(a, first[j]));
    text::lemma_str_le_antisymmetric(a, b);
}

/// The README's purpose: its first substantive paragraph. Any failure along
/// the way (no readable text, no paragraph) is a silent miss.
pub open spec fn readme_purpose_is(name: Seq<char>, file: FileRead, purpose: Option<ProjectPurpose>) -> bool {
    match file {
        FileRead::Found { len, contents: Some(bytes) } => if len <= README_MAX_BYTES && vstd::utf8::valid_utf8(bytes@) {
            match readme_paragraph(vstd::utf8::decode_utf8(bytes@)) {
                Some(paragraph) => purpose_from(paragraph, name, PurposeSource::Readme, Confidence::Inferred, purpose),
                None => purpose is None,
            }
        } else {
            purpose is None
        },
        _ => purpose is None,
    }
}

/// The README's purpose, from the chosen candidate `name` and what reading
/// it gave.
pub fn readme_purpose(name: &str, file: FileRead) -> (purpose: Option<ProjectPurpose>)
    ensures
        readme_purpose_is(name@, file, purpose),
{
    let content = match read_bounded(name, README_MAX_BYTES, file) {
        Ok(content) => content,
        Err(_) => return None,
    };
    let paragraph = match extract_readme_paragraph(content.as_str()) {
        Some(paragraph) => paragraph,
        None => return None,
    };
    finish_purpose(paragraph.as_str(), name, PurposeSource::Readme, Confidence::Inferred)
}

pub open spec fn placeholder_prefix() -> Seq<char> {
    GIT_DESCRIPTION_PLACEHOLDER_PREFIX@
}

/// The Git description's purpose: skipped when `.git` is not a directory
/// (`file` is `None`), when it cannot be read as text, and when it is empty
/// or Git's own placeholder once normalized.
pub open spec fn git_description_purpose_is(file: Option<FileRead>, purpose: Option<ProjectPurpose>) -> bool {
    match file {
        Some(FileRead::Found { len, contents: Some(bytes) }) => if len <= GIT_DESCRIPTION_MAX_BYTES
            && vstd::utf8::valid_utf8(bytes@) {
            let content = vstd::utf8::decode_utf8(bytes@);
            let n = normalized(content);
            if n.len() == 0 || (n.len() >= placeholder_prefix().len() && n.take(placeholder_prefix().len() as int)
                == placeholder_prefix()) {
                purpose is None
            } else {
                purpose_from(content, GIT_DESCRIPTION_EVIDENCE@, PurposeSource::GitDescription, Confidence::Inferred, purpose)
            }
        } else {
            purpose is None
        },
        _ => purpose is None,
    }
}

/// `.git/description`'s purpose, from what reading it gave; `None` when
/// `.git` is not a directory (a worktree or a submodule, where it is a file).
pub fn git_description_purpose(file: Option<FileRead>) -> (purpose: Option<ProjectPurpose>)
    ensures
        git_description_purpose_is(file, purpose),
{
    let file = match file {
        Some(file) => file,
        None => return None,
    };
    let content = match read_bounded("description", GIT_DESCRIPTION_MAX_BYTES, file) {
        Ok(content) => content,
        Err(_) => return None,
    };
    let normalized_text = normalize_statement(content.as_str());
    let chars = text::chars_of(normalized_text.as_str());
    if chars.len() == 0 || text::chars_start_with(&chars, 0, chars.len(), GIT_DESCRIPTION_PLACEHOLDER_PREFIX) {
        proof {
            assert(chars@.subrange(0, chars@.len() as int) =~= chars@);
        }
        return None;
    }
    proof {
        assert(chars@.subrange(0, chars@.len() as int) =~= chars@);
    }
    finish_purpose(content.as_str(), GIT_DESCRIPTION_EVIDENCE, PurposeSource::GitDescription, Confidence::Inferred)
}


/// The format of a manifest in the precedence table.
#[derive(Debug, Clone, Copy, PartialEq, Eq)]
pub enum ManifestFormat {
    Cargo,
    PackageJson,
    Pyproject,
    Composer,
    GoMod,
}

/// The manifests of the precedence table, in order: `Cargo.toml`,
/// `package.json`, `pyproject.toml`, `composer.json`, `go.mod`.
pub open spec fn table_format(i: int) -> ManifestFormat {
    if i == 0 {
        ManifestFormat::Cargo
    } else if i == 1 {
        ManifestFormat::PackageJson
    } else if i == 2 {
        ManifestFormat::Pyproject
    } else if i == 3 {
        ManifestFormat::Composer
    } else {
        ManifestFormat::GoMod
    }
}

/// The file name of the `i`th manifest of the table.
pub open spec fn table_file(i: int) -> Seq<char> {
    if i == 0 {
        CARGO_MANIFEST_FILE@
    } else if i == 1 {
        PACKAGE_JSON_FILE@
    } else if i == 2 {
        PYPROJECT_TOML_FILE@
    } else if i == 3 {
        COMPOSER_JSON_FILE@
    } else {
        GO_MOD_FILE@
    }
}

/// What the program found at the root for each source of the table.
#[derive(Debug, Clone, PartialEq, Eq)]
pub struct PurposeInputs {
    pub cargo_toml: FileRead,
    pub package_json: FileRead,
    pub pyproject_toml: FileRead,
    pub composer_json: FileRead,
    pub go_mod: FileRead,
    /// The README [`choose_readme`] chose, by its actual name, and what
    /// reading it gave; `None` when the root has none.
    pub readme: Option<(String, FileRead)>,
    /// What reading `.git/description` gave; `None` when `.git` is not a
    /// directory.
    pub git_description: Option<FileRead>,
}

impl PurposeInputs {
    /// The `i`th manifest of the table.
    pub open spec fn manifest(self, i: int) -> FileRead {
        if i == 0 {
            self.cargo_toml
        } else if i == 1 {
            self.package_json
        } else if i == 2 {
            self.pyproject_toml
        } else if i == 3 {
            self.composer_json
        } else {
            self.go_mod
        }
    }
}

/// `extract` is what reading `content` as `format` for a description gives.
pub open spec fn extract_is(format: ManifestFormat, content: Seq<char>, extract: ManifestExtract) -> bool {
    match format {
        ManifestFormat::Cargo => match toml_parsed(content) {
            Ok(document) => reports(extract, cargo_description(document)),
            Err(_) => extract is Malformed,
        },
        ManifestFormat::Pyproject => match toml_parsed(content) {
            Ok(document) => reports(extract, pyproject_description(document)),
            Err(_) => extract is Malformed,
        },
        ManifestFormat::PackageJson | ManifestFormat::Composer => match json_parsed(content) {
            Some(document) => reports(extract, json_description(document)),
            None => extract is Malformed,
        },
        ManifestFormat::GoMod => match go_module(char_lines(content), 0) {
            Some(text) => extract matches ManifestExtract::Found(s) && s@ == text,
            None => extract is Miss,
        },
    }
}

fn extract(format: ManifestFormat, content: &str) -> (result: ManifestExtract)
    ensures
        extract_is(format, content@, result),
{
    match format {
        ManifestFormat::Cargo => extract_cargo(content),
        ManifestFormat::PackageJson => extract_json_description(content),
        ManifestFormat::Pyproject => extract_pyproject(content),
        ManifestFormat::Composer => extract_json_description(content),
        ManifestFormat::GoMod => extract_go_mod(content),
    }
}

/// How one manifest answered: the purpose it yields, if any, and the
/// warning it raised, if any. A missing file is a silent miss; one that
/// cannot be read as text, or that does not parse, warns and misses.
pub open spec fn manifest_answers(
    name: Seq<char>,
    format: ManifestFormat,
    file: FileRead,
    answer: (Option<ProjectPurpose>, Option<Seq<char>>),
) -> bool {
    match file {
        FileRead::Missing => answer.0 is None && answer.1 is None,
        FileRead::Found { len, contents } => match contents {
            Some(bytes) => if len <= MAX_FILE_BYTES && vstd::utf8::valid_utf8(bytes@) {
                exists|e: ManifestExtract|
                    {
                        &&& extract_is(format, vstd::utf8::decode_utf8(bytes@), e)
                        &&& match e {
                            ManifestExtract::Found(raw) => purpose_from(
                                raw@,
                                name,
                                PurposeSource::Manifest,
                                Confidence::Certain,
                                answer.0,
                            ) && answer.1 is None,
                            ManifestExtract::Miss => answer.0 is None && answer.1 is None,
                            ManifestExtract::Malformed => answer.0 is None && answer.1 == Some(WARN_MALFORMED@),
                        }
                    }
            } else {
                answer.0 is None && answer.1 == Some(WARN_UNREADABLE@)
            },
            None => answer.0 is None && answer.1 == Some(WARN_UNREADABLE@),
        },
    }
}

/// Each warning as its path and message.
pub open spec fn warnings_view(warnings: Seq<ScanWarning>) -> Seq<(Seq<char>, Seq<char>)> {
    warnings.map_values(|w: ScanWarning| (w.path@, w.message@))
}

/// The warning an answer raised, naming the file below `root`.
pub open spec fn warning_row(root: Seq<char>, name: Seq<char>, warning: Option<Seq<char>>) -> Seq<(Seq<char>, Seq<char>)> {
    match warning {
        Some(message) => seq![(joined(root, name), message)],
        None => seq![],
    }
}

fn warning(path: String, message: &str) -> (w: ScanWarning)
    ensures
        w.path@ == path@,
        w.message@ == message@,
{
    ScanWarning { path, message: text::owned(message) }
}

/// One manifest of the table: its description as a purpose, or a miss, and
/// a warning naming the file when it exists but cannot be read or parsed.
/// The warning is tool-authored text, never anything from the file or the
/// parser.
pub fn manifest_purpose(
    root: &str,
    warnings: &mut Vec<ScanWarning>,
    file_name: &str,
    format: ManifestFormat,
    file: FileRead,
) -> (purpose: Option<ProjectPurpose>)
    ensures
        exists|answer: (Option<ProjectPurpose>, Option<Seq<char>>)|
            {
                &&& manifest_answers(file_name@, format, file, answer)
                &&& purpose == answer.0
                &&& warnings_view(final(warnings)@) == warnings_view(old(warnings)@) + warning_row(
                    root@,
                    file_name@,
                    answer.1,
                )
            },
{
    let ghost f = file;
    let ghost before = warnings@;
    let content = match read_bounded(file_name, MAX_FILE_BYTES, file) {
        Ok(content) => content,
        Err(NotEvaluated::Failed(_)) => {
            warnings.push(warning(join(root, file_name), WARN_UNREADABLE));
            proof {
                let answer = (None::<ProjectPurpose>, Some(WARN_UNREADABLE@));
                assert(warnings_view(warnings@) =~= warnings_view(before) + warning_row(root@, file_name@, answer.1));
                assert(manifest_answers(file_name@, format, f, answer));
            }
            return None;
        },
        Err(_) => {
            proof {
                let answer = (None::<ProjectPurpose>, None::<Seq<char>>);
                assert(warnings_view(warnings@) =~= warnings_view(before) + warning_row(root@, file_name@, answer.1));
                assert(manifest_answers(file_name@, format, f, answer));
            }
            return None;
        },
    };
    let found = extract(format, content.as_str());
    match found {
        ManifestExtract::Found(raw) => {
            let purpose = finish_purpose(raw.as_str(), file_name, PurposeSource::Manifest, Confidence::Certain);
            proof {
                let answer = (purpose, None::<Seq<char>>);
                assert(warnings_view(warnings@) =~= warnings_view(before) + warning_row(root@, file_name@, answer.1));
                assert(manifest_answers(file_name@, format, f, answer));
            }
            purpose
        },
        ManifestExtract::Miss => {
            proof {
                let answer = (None::<ProjectPurpose>, None::<Seq<char>>);
                assert(warnings_view(warnings@) =~= warnings_view(before) + warning_row(root@, file_name@, answer.1));
                assert(manifest_answers(file_name@, format, f, answer));
            }
            None
        },
        ManifestExtract::Malformed => {
            warnings.push(warning(join(root, file_name), WARN_MALFORMED));
            proof {
                let answer = (None::<ProjectPurpose>, Some(WARN_MALFORMED@));
                assert(warnings_view(warnings@) =~= warnings_view(before) + warning_row(root@, file_name@, answer.1));
                assert(manifest_answers(file_name@, format, f, answer));
            }
            None
        },
    }
}


/// The warnings the consulted manifests raised, in table order.
pub open spec fn table_warnings(root: Seq<char>, answers: Seq<(Option<ProjectPurpose>, Option<Seq<char>>)>) -> Seq<(Seq<char>, Seq<char>)>
    decreases answers.len(),
{
    if answers.len() == 0 {
        seq![]
    } else {
        table_warnings(root, answers.drop_last()) + warning_row(root, table_file(answers.len() - 1), answers.last().1)
    }
}

/// The README step: a miss when the root has no README.
pub open spec fn readme_step_is(readme: Option<(String, FileRead)>, purpose: Option<ProjectPurpose>) -> bool {
    match readme {
        Some((name, file)) => readme_purpose_is(name@, file, purpose),
        None => purpose is None,
    }
}

/// The precedence table walked in order: the five manifests, then the
/// README, then `.git/description`. `answers` are the manifests consulted,
/// in order; the walk stops at the first that yields a purpose, and only a
/// walk past all five reaches the README, and past it the Git description.
pub open spec fn table_walk(
    root: Seq<char>,
    inputs: PurposeInputs,
    answers: Seq<(Option<ProjectPurpose>, Option<Seq<char>>)>,
    warned: Seq<(Seq<char>, Seq<char>)>,
    purpose: Option<ProjectPurpose>,
) -> bool {
    &&& 1 <= answers.len() <= 5
    &&& forall|i: int| 0 <= i < answers.len() ==> manifest_answers(table_file(i), table_format(i), inputs.manifest(i), #[trigger] answers[i])
    &&& forall|i: int| 0 <= i < answers.len() - 1 ==> (#[trigger] answers[i]).0 is None
    &&& warned == table_warnings(root, answers)
    &&& if answers.last().0 is Some {
        purpose == answers.last().0
    } else {
        &&& answers.len() == 5
        &&& exists|r: Option<ProjectPurpose>| {
            &&& readme_step_is(inputs.readme, r)
            &&& r is Some ==> purpose == r
            &&& r is None ==> git_description_purpose_is(inputs.git_description, purpose)
        }
    }
}

fn manifest_step(
    root: &str,
    warnings: &mut Vec<ScanWarning>,
    i: usize,
    file: FileRead,
    Ghost(answers): Ghost<Seq<(Option<ProjectPurpose>, Option<Seq<char>>)>>,
    Ghost(start): Ghost<Seq<(Seq<char>, Seq<char>)>>,
) -> (result: (Option<ProjectPurpose>, Ghost<Seq<(Option<ProjectPurpose>, Option<Seq<char>>)>>))
    requires
        i < 5,
        answers.len() == i,
        warnings_view(old(warnings)@) == start + table_warnings(root@, answers),
    ensures
        result.1@.len() == i + 1,
        result.1@.drop_last() == answers,
        manifest_answers(table_file(i as int), table_format(i as int), file, result.1@.last()),
        result.0 == result.1@.last().0,
        warnings_view(final(warnings)@) == start + table_warnings(root@, result.1@),
{
    let (name, format) = if i == 0 {
        (CARGO_MANIFEST_FILE, ManifestFormat::Cargo)
    } else if i == 1 {
        (PACKAGE_JSON_FILE, ManifestFormat::PackageJson)
    } else if i == 2 {
        (PYPROJECT_TOML_FILE, ManifestFormat::Pyproject)
    } else if i == 3 {
        (COMPOSER_JSON_FILE, ManifestFormat::Composer)
    } else {
        (GO_MOD_FILE, ManifestFormat::GoMod)
    };
    assert(name@ == table_file(i as int) && format == table_format(i as int));
    let ghost before = warnings@;
    let purpose = manifest_purpose(root, warnings, name, format, file);
    let ghost answer = choose|answer: (Option<ProjectPurpose>, Option<Seq<char>>)|
        {
            &&& manifest_answers(name@, format, file, answer)
            &&& purpose == answer.0
            &&& warnings_view(warnings@) == warnings_view(before) + warning_row(root@, name@, answer.1)
        };
    let ghost next = answers.push(answer);
    proof {
        assert(next.drop_last() =~= answers);
        assert(start + table_warnings(root@, next) =~= start + table_warnings(root@, answers) + warning_row(
            root@,
            name@,
            answer.1,
        ));
    }
    (purpose, Ghost(next))
}

/// Walks the precedence table in order: five manifests, then the README,
/// then `.git/description`. The first non-empty normalized statement wins
/// and later sources are never consulted. A manifest that exists but cannot
/// be read or parsed adds a warning naming it and the walk goes on; nothing
/// else warns.
pub fn find_purpose(root: &str, inputs: PurposeInputs, warnings: &mut Vec<ScanWarning>) -> (purpose: Option<ProjectPurpose>)
    ensures
        exists|answers: Seq<(Option<ProjectPurpose>, Option<Seq<char>>)>, added: Seq<(Seq<char>, Seq<char>)>|
            {
                &&& table_walk(root@, inputs, answers, added, purpose)
                &&& warnings_view(final(warnings)@) == warnings_view(old(warnings)@) + added
            },
{
    let ghost all = inputs;
    let ghost start = warnings_view(warnings@);
    let PurposeInputs { cargo_toml, package_json, pyproject_toml, composer_json, go_mod, readme, git_description } = inputs;
    assert(warnings_view(warnings@) =~= start + table_warnings(root@, Seq::empty()));
    let (p, Ghost(a1)) = manifest_step(root, warnings, 0, cargo_toml, Ghost(Seq::empty()), Ghost(start));
    if p.is_some() {
        assert(table_walk(root@, all, a1, table_warnings(root@, a1), p));
        return p;
    }
    let (p, Ghost(a2)) = manifest_step(root, warnings, 1, package_json, Ghost(a1), Ghost(start));
    if p.is_some() {
        assert(a2[0] == a1[0]);
        assert(table_walk(root@, all, a2, table_warnings(root@, a2), p));
        return p;
    }
    let (p, Ghost(a3)) = manifest_step(root, warnings, 2, pyproject_toml, Ghost(a2), Ghost(start));
    if p.is_some() {
        assert(a3[0] == a1[0] && a3[1] == a2[1]);
        assert(table_walk(root@, all, a3, table_warnings(root@, a3), p));
        return p;
    }
    let (p, Ghost(a4)) = manifest_step(root, warnings, 3, composer_json, Ghost(a3), Ghost(start));
    if p.is_some() {
        assert(a4[0] == a1[0] && a4[1] == a2[1] && a4[2] == a3[2]);
        assert(table_walk(root@, all, a4, table_warnings(root@, a4), p));
        return p;
    }
    let (p, Ghost(a5)) = manifest_step(root, warnings, 4, go_mod, Ghost(a4), Ghost(start));
    proof {
        assert(a5[0] == a1[0] && a5[1] == a2[1] && a5[2] == a3[2] && a5[3] == a4[3]);
    }
    if p.is_some() {
        assert(table_walk(root@, all, a5, table_warnings(root@, a5), p));
        return p;
    }
    let r = match readme {
        Some((name, file)) => readme_purpose(name.as_str(), file),
        None => None,
    };
    assert(readme_step_is(all.readme, r));
    if r.is_some() {
        assert(table_walk(root@, all, a5, table_warnings(root@, a5), r));
        return r;
    }
    let g = git_description_purpose(git_description);
    assert(table_walk(root@, all, a5, table_warnings(root@, a5), g));
    g
}

/// Extracts the repository's stated purpose from what the program found at
/// `root`, in the table's order. Never fails: with no statement anywhere the
/// result names what was looked for; disabled, it reads nothing.
pub fn analyze(root: &str, config: &ScanConfig, inputs: PurposeInputs) -> (result: (Analysis<ProjectPurpose>, Vec<ScanWarning>))
    ensures
        !config.read_profile ==> result.0.is_disabled() && result.1@.len() == 0,
        config.read_profile ==> exists|
            answers: Seq<(Option<ProjectPurpose>, Option<Seq<char>>)>,
            found: Option<ProjectPurpose>,
        |
            #![trigger table_walk(root@, inputs, answers, warnings_view(result.1@), found)]
            {
                &&& table_walk(root@, inputs, answers, warnings_view(result.1@), found)
                &&& match found {
                    Some(p) => result.0 == Analysis::Ran(p),
                    None => result.0.unavailable_with(NO_PURPOSE_FOUND@),
                }
            },
{
    if !config.read_profile {
        return (Analysis::NotEvaluated(NotEvaluated::Disabled), Vec::new());
    }
    let mut warnings: Vec<ScanWarning> = Vec::new();
    let ghost empty = warnings;
    let ghost all = inputs;
    let purpose = find_purpose(root, inputs, &mut warnings);
    let ghost found = purpose;
    let analysis = match purpose {
        Some(purpose) => Analysis::Ran(purpose),
        None => Analysis::NotEvaluated(NotEvaluated::InputUnavailable(text::owned(NO_PURPOSE_FOUND))),
    };
    let ghost picked = choose|
        answers: Seq<(Option<ProjectPurpose>, Option<Seq<char>>)>,
        added: Seq<(Seq<char>, Seq<char>)>,
    |
        {
            &&& table_walk(root@, all, answers, added, found)
            &&& warnings_view(warnings@) == warnings_view(empty@) + added
        };
    proof {
        assert(warnings_view(warnings@) =~= picked.1);
        assert(table_walk(root@, inputs, picked.0, warnings_view(warnings@), found));
    }
    let result = (analysis, warnings);
    assert(table_walk(root@, inputs, picked.0, warnings_view(result.1@), found));
    result
}

} // verus!
