//! Cargo manifest and lockfile dependency view.
//!
//! A parser's own error text quotes its input back, so no detail string here
//! ever carries any of it: a failure names the file, what was wrong with it,
//! and at most the line where the parser stopped, counted by this module from
//! the byte offset the parser reports.
use vstd::prelude::*;

use crate::scan::lines::newline_count;
use crate::sort::{self, sorted, Ranked};
use crate::text::{self, decimal, str_le};
use crate::{Analysis, NotEvaluated, ScanConfig};

verus! {

/// What the manifest at the scanned root declares.
#[derive(Debug, Clone, PartialEq, Eq)]
pub struct CargoManifest {
    /// The package name, absent for a virtual workspace manifest.
    pub package_name: Option<String>,
    /// The package version, absent for a virtual workspace manifest.
    pub package_version: Option<String>,
    /// True when the manifest declares a `[workspace]` table.
    pub workspace_root: bool,
    /// Direct dependencies, sorted by kind then name.
    pub dependencies: Vec<CargoDependency>,
}

impl Default for CargoManifest {
    fn default() -> (manifest: Self)
        ensures
            manifest.package_name is None,
            manifest.package_version is None,
            !manifest.workspace_root,
            manifest.dependencies@.len() == 0,
    {
        CargoManifest { package_name: None, package_version: None, workspace_root: false, dependencies: Vec::new() }
    }
}

/// One declared dependency.
#[derive(Debug, Clone, PartialEq, Eq)]
pub struct CargoDependency {
    /// The dependency name as written in the manifest.
    pub name: String,
    /// The declared version requirement, absent for a git, path, or
    /// workspace-inherited dependency that states none.
    pub requirement: Option<String>,
    /// Which dependency table this came from.
    pub kind: DependencyKind,
    /// The `cfg(...)` expression, when the dependency is target-specific.
    pub target: Option<String>,
    /// Where the dependency resolves from.
    pub source: DependencySource,
}

/// Which dependency table a dependency was declared in.
#[derive(Debug, Clone, Copy, PartialEq, Eq, PartialOrd, Ord, Hash)]
pub enum DependencyKind {
    /// `[dependencies]`.
    Normal,
    /// `[dev-dependencies]`.
    Dev,
    /// `[build-dependencies]`.
    Build,
}

/// Where a dependency resolves from.
#[derive(Debug, Clone, Copy, PartialEq, Eq)]
pub enum DependencySource {
    /// A registry such as crates.io.
    Registry,
    /// A `git` dependency.
    Git,
    /// A local `path` dependency.
    Path,
    /// `workspace = true`: the version is inherited from the workspace.
    Workspace,
}

/// What the lockfile resolved to.
#[derive(Debug, Clone, PartialEq, Eq)]
pub struct CargoLock {
    /// The lockfile format version, when it declares one.
    pub lock_version: Option<u32>,
    /// Total packages in the lockfile.
    pub packages: usize,
    /// Packages with no `source`.
    pub local_packages: usize,
}

impl Default for CargoLock {
    fn default() -> (lock: Self)
        ensures
            lock == (CargoLock { lock_version: None, packages: 0, local_packages: 0 }),
    {
        CargoLock { lock_version: None, packages: 0, local_packages: 0 }
    }
}


/// Files larger than this are refused before they are read.
pub const MAX_FILE_BYTES: u64 = 4194304;

pub const MANIFEST_NAME: &'static str = "Cargo.toml";
pub const LOCK_NAME: &'static str = "Cargo.lock";

impl DependencyKind {
    /// The stable lowercase token for this kind.
    pub open spec fn token(self) -> Seq<char> {
        match self {
            DependencyKind::Normal => "normal"@,
            DependencyKind::Dev => "dev"@,
            DependencyKind::Build => "build"@,
        }
    }

    /// The stable lowercase token for this kind, matching the JSON
    /// contract's spelling.
    pub fn label(self) -> (token: &'static str)
        ensures
            token@ == self.token(),
    {
        match self {
            DependencyKind::Normal => "normal",
            DependencyKind::Dev => "dev",
            DependencyKind::Build => "build",
        }
    }

    /// Position in the order kinds are reported in: normal, dev, build.
    pub open spec fn position(self) -> int {
        match self {
            DependencyKind::Normal => 0,
            DependencyKind::Dev => 1,
            DependencyKind::Build => 2,
        }
    }

    fn position_exec(self) -> (p: u8)
        ensures
            p == self.position(),
    {
        match self {
            DependencyKind::Normal => 0,
            DependencyKind::Dev => 1,
            DependencyKind::Build => 2,
        }
    }
}

impl DependencySource {
    /// The stable lowercase token for this source.
    pub open spec fn token(self) -> Seq<char> {
        match self {
            DependencySource::Registry => "registry"@,
            DependencySource::Git => "git"@,
            DependencySource::Path => "path"@,
            DependencySource::Workspace => "workspace"@,
        }
    }

    /// The stable lowercase token for this source, matching the JSON
    /// contract's spelling.
    pub fn label(self) -> (token: &'static str)
        ensures
            token@ == self.token(),
    {
        match self {
            DependencySource::Registry => "registry",
            DependencySource::Git => "git",
            DependencySource::Path => "path",
            DependencySource::Workspace => "workspace",
        }
    }
}

/// The manifest as deserialized, before anything is reported. Each table
/// holds its entries in key order, as a map keyed by name yields them: see
/// [`RawManifest::wf`].
/// Unknown tables and fields are not represented: they are ignored.
#[derive(Debug, Clone, PartialEq, Eq)]
pub struct RawManifest {
    pub package: Option<RawPackage>,
    /// Whether the manifest has a `[workspace]` table.
    pub workspace: bool,
    pub dependencies: Vec<(String, RawDependency)>,
    pub dev_dependencies: Vec<(String, RawDependency)>,
    pub build_dependencies: Vec<(String, RawDependency)>,
    /// `[target.'cfg(..)'.*]` tables, keyed by the `cfg` expression.
    pub target: Vec<(String, RawTarget)>,
}

#[derive(Debug, Clone, PartialEq, Eq)]
pub struct RawPackage {
    pub name: Option<String>,
    pub version: Option<String>,
}

#[derive(Debug, Clone, PartialEq, Eq)]
pub struct RawTarget {
    pub dependencies: Vec<(String, RawDependency)>,
    pub dev_dependencies: Vec<(String, RawDependency)>,
    pub build_dependencies: Vec<(String, RawDependency)>,
}

/// The table's names strictly ascend in `String` order: each name occurs
/// once, in the order a map keyed by name hands its entries out.
pub open spec fn names_ascend<V>(table: Seq<(String, V)>) -> bool {
    forall|i: int, j: int|
        0 <= i < j < table.len() ==> str_le(#[trigger] table[i].0@, #[trigger] table[j].0@) && table[i].0@
            != table[j].0@
}

impl RawTarget {
    /// Each of the target's tables is keyed by name, in name order.
    pub open spec fn wf(self) -> bool {
        &&& names_ascend(self.dependencies@)
        &&& names_ascend(self.dev_dependencies@)
        &&& names_ascend(self.build_dependencies@)
    }

    /// Whether [`RawTarget::wf`] holds.
    pub fn well_formed(&self) -> (r: bool)
        ensures
            r == self.wf(),
    {
        names_ascending(&self.dependencies) && names_ascending(&self.dev_dependencies) && names_ascending(
            &self.build_dependencies,
        )
    }
}

impl RawManifest {
    /// Every table, the target table included, is keyed by name, in name
    /// order: what deserializing into maps keyed by name gives.
    pub open spec fn wf(self) -> bool {
        &&& names_ascend(self.dependencies@)
        &&& names_ascend(self.dev_dependencies@)
        &&& names_ascend(self.build_dependencies@)
        &&& names_ascend(self.target@)
        &&& forall|i: int| 0 <= i < self.target@.len() ==> (#[trigger] self.target@[i]).1.wf()
    }

    /// Whether [`RawManifest::wf`] holds.
    pub fn well_formed(&self) -> (r: bool)
        ensures
            r == self.wf(),
    {
        if !(names_ascending(&self.dependencies) && names_ascending(&self.dev_dependencies) && names_ascending(
            &self.build_dependencies,
        ) && names_ascending(&self.target)) {
            return false;
        }
        let mut i: usize = 0;
        while i < self.target.len()
            invariant
                i <= self.target@.len(),
                forall|k: int| 0 <= k < i ==> (#[trigger] self.target@[k]).1.wf(),
            decreases self.target.len() - i,
        {
            if !self.target[i].1.well_formed() {
                return false;
            }
            i += 1;
        }
        true
    }
}

/// Whether the names of `table` strictly ascend.
fn names_ascending<V>(table: &Vec<(String, V)>) -> (r: bool)
    ensures
        r == names_ascend(table@),
{
    let mut i: usize = 1;
    if table.len() < 2 {
        return true;
    }
    while i < table.len()
        invariant
            1 <= i <= table@.len(),
            forall|a: int, b: int|
                0 <= a < b < i ==> str_le(#[trigger] table@[a].0@, #[trigger] table@[b].0@) && table@[a].0@
                    != table@[b].0@,
        decreases table.len() - i,
    {
        let prev = table[i - 1].0.as_str();
        let next = table[i].0.as_str();
        if !(text::str_le_exec(prev, next) && !text::str_eq(prev, next)) {
            return false;
        }
        proof {
            assert forall|a: int, b: int| 0 <= a < b < i + 1 implies str_le(#[trigger] table@[a].0@, #[trigger] table@[b].0@)
                && table@[a].0@ != table@[b].0@ by {
                if b == i && a < i - 1 {
                    text::lemma_str_le_transitive(table@[a].0@, table@[i - 1].0@, table@[i as int].0@);
                    if table@[a].0@ == table@[b].0@ {
                        text::lemma_str_le_antisymmetric(table@[i - 1].0@, table@[i as int].0@);
                    }
                }
            }
        }
        i += 1;
    }
    true
}

/// A single dependency declaration: a bare version string, or a table.
#[derive(Debug, Clone, PartialEq, Eq)]
pub enum RawDependency {
    Version(String),
    Detailed(RawDetailed),
}

/// The fields read out of a detailed dependency table; the others are
/// ignored the way an unknown top-level table is.
#[derive(Debug, Clone, PartialEq, Eq)]
pub struct RawDetailed {
    pub version: Option<String>,
    pub git: Option<String>,
    pub path: Option<String>,
    pub workspace: Option<bool>,
}

/// The lockfile as deserialized: a format version and the packages.
#[derive(Debug, Clone, PartialEq, Eq)]
pub struct RawLock {
    pub version: Option<u32>,
    pub package: Vec<RawLockPackage>,
}

#[derive(Debug, Clone, PartialEq, Eq)]
pub struct RawLockPackage {
    pub source: Option<String>,
}

/// Where a detailed declaration resolves from: an inherited workspace entry
/// first, then git, then path, else a registry.
pub open spec fn source_of(d: RawDetailed) -> DependencySource {
    if d.workspace == Some(true) {
        DependencySource::Workspace
    } else if d.git is Some {
        DependencySource::Git
    } else if d.path is Some {
        DependencySource::Path
    } else {
        DependencySource::Registry
    }
}

/// The reported dependency for one table entry.
pub open spec fn declared(entry: (String, RawDependency), kind: DependencyKind, target: Option<String>) -> CargoDependency {
    match entry.1 {
        RawDependency::Version(version) => CargoDependency {
            name: entry.0,
            requirement: Some(version),
            kind,
            target,
            source: DependencySource::Registry,
        },
        RawDependency::Detailed(detailed) => CargoDependency {
            name: entry.0,
            requirement: detailed.version,
            kind,
            target,
            source: source_of(detailed),
        },
    }
}

/// The reported dependencies for a whole table, in its order.
pub open spec fn declared_in(table: Seq<(String, RawDependency)>, kind: DependencyKind, target: Option<String>) -> Seq<CargoDependency> {
    table.map_values(|entry: (String, RawDependency)| declared(entry, kind, target))
}

/// The target-specific dependencies, target by target: each target's
/// normal, dev and build tables in turn.
pub open spec fn target_declared(targets: Seq<(String, RawTarget)>) -> Seq<CargoDependency>
    decreases targets.len(),
{
    if targets.len() == 0 {
        seq![]
    } else {
        let cfg = targets.last().0;
        let t = targets.last().1;
        target_declared(targets.drop_last()) + declared_in(t.dependencies@, DependencyKind::Normal, Some(cfg))
            + declared_in(t.dev_dependencies@, DependencyKind::Dev, Some(cfg))
            + declared_in(t.build_dependencies@, DependencyKind::Build, Some(cfg))
    }
}

/// Every dependency the manifest declares, in the order the tables are read:
/// normal, dev, build, then the target-specific ones.
pub open spec fn declared_of(raw: RawManifest) -> Seq<CargoDependency> {
    declared_in(raw.dependencies@, DependencyKind::Normal, None)
        + declared_in(raw.dev_dependencies@, DependencyKind::Dev, None)
        + declared_in(raw.build_dependencies@, DependencyKind::Build, None)
        + target_declared(raw.target@)
}

/// `manifest` reports exactly what `raw` declares, dependencies sorted by
/// kind then name, entries that tie keeping their declaration order.
pub open spec fn describes_manifest(manifest: CargoManifest, raw: RawManifest) -> bool {
    &&& manifest.package_name == match raw.package {
        Some(p) => p.name,
        None => None,
    }
    &&& manifest.package_version == match raw.package {
        Some(p) => p.version,
        None => None,
    }
    &&& manifest.workspace_root == raw.workspace
    &&& manifest.dependencies@ == sorted(declared_of(raw))
}

impl Ranked for CargoDependency {
    /// By kind (normal, dev, build), then by name in `String` order.
    open spec fn ranks_before(self, other: Self) -> bool {
        self.kind.position() < other.kind.position() || (self.kind.position() == other.kind.position()
            && str_le(self.name@, other.name@))
    }

    fn ranks_before_exec(&self, other: &Self) -> (r: bool) {
        let a = self.kind.position_exec();
        let b = other.kind.position_exec();
        a < b || (a == b && text::str_le_exec(self.name.as_str(), other.name.as_str()))
    }

    proof fn ranks_total(a: Self, b: Self) {
        text::lemma_str_le_total(a.name@, b.name@);
    }

    proof fn ranks_transitive(a: Self, b: Self, c: Self) {
        if a.kind.position() == b.kind.position() && b.kind.position() == c.kind.position() {
            text::lemma_str_le_transitive(a.name@, b.name@, c.name@);
        }
    }
}

fn clone_text(value: &Option<String>) -> (copy: Option<String>)
    ensures
        copy == *value,
{
    match value {
        Some(text) => Some(text.clone()),
        None => None,
    }
}

/// Appends the reported dependency for every entry of `table`.
fn push_dependencies(
    out: &mut Vec<CargoDependency>,
    table: &Vec<(String, RawDependency)>,
    kind: DependencyKind,
    target: &Option<String>,
)
    requires
        names_ascend(table@),
    ensures
        final(out)@ == old(out)@ + declared_in(table@, kind, *target),
        forall|i: int, j: int| old(out)@.len() <= i < j < final(out)@.len() ==> str_le(
            #[trigger] final(out)@[i].name@,
            #[trigger] final(out)@[j].name@,
        ) && final(out)@[i].name@ != final(out)@[j].name@,
{
    let mut i: usize = 0;
    while i < table.len()
        invariant
            i <= table@.len(),
            out@ == old(out)@ + declared_in(table@.subrange(0, i as int), kind, *target),
        decreases table.len() - i,
    {
        let (requirement, source) = match &table[i].1 {
            RawDependency::Version(version) => (Some(version.clone()), DependencySource::Registry),
            RawDependency::Detailed(detailed) => {
                let inherited = match detailed.workspace {
                    Some(flag) => flag,
                    None => false,
                };
                let source = if inherited {
                    DependencySource::Workspace
                } else if detailed.git.is_some() {
                    DependencySource::Git
                } else if detailed.path.is_some() {
                    DependencySource::Path
                } else {
                    DependencySource::Registry
                };
                (clone_text(&detailed.version), source)
            },
        };
        let ghost before = out@;
        out.push(CargoDependency {
            name: table[i].0.clone(),
            requirement,
            kind,
            target: clone_text(target),
            source,
        });
        proof {
            assert(declared_in(table@.subrange(0, i + 1), kind, *target) =~= declared_in(
                table@.subrange(0, i as int),
                kind,
                *target,
            ).push(declared(table@[i as int], kind, *target)));
            assert(out@ =~= before.push(declared(table@[i as int], kind, *target)));
        }
        i += 1;
    }
    assert(table@.subrange(0, table@.len() as int) =~= table@);
    assert forall|i: int, j: int| old(out)@.len() <= i < j < out@.len() implies str_le(
        #[trigger] out@[i].name@,
        #[trigger] out@[j].name@,
    ) && out@[i].name@ != out@[j].name@ by {
        let n = old(out)@.len() as int;
        assert(out@[i] == declared(table@[i - n], kind, *target));
        assert(out@[j] == declared(table@[j - n], kind, *target));
    }
}

/// Builds the reported manifest from what deserialized: every declared
/// dependency, sorted by kind then name.
pub fn build_manifest(raw: RawManifest) -> (manifest: CargoManifest)
    requires
        raw.wf(),
    ensures
        describes_manifest(manifest, raw),
{
    let (package_name, package_version) = match &raw.package {
        Some(package) => (clone_text(&package.name), clone_text(&package.version)),
        None => (None, None),
    };
    let mut dependencies: Vec<CargoDependency> = Vec::new();
    push_dependencies(&mut dependencies, &raw.dependencies, DependencyKind::Normal, &None);
    push_dependencies(&mut dependencies, &raw.dev_dependencies, DependencyKind::Dev, &None);
    push_dependencies(&mut dependencies, &raw.build_dependencies, DependencyKind::Build, &None);
    let ghost untargeted = dependencies@;
    let mut t: usize = 0;
    assert(untargeted + target_declared(raw.target@.subrange(0, 0)) =~= untargeted);
    while t < raw.target.len()
        invariant
            t <= raw.target@.len(),
            untargeted == declared_in(raw.dependencies@, DependencyKind::Normal, None)
                + declared_in(raw.dev_dependencies@, DependencyKind::Dev, None)
                + declared_in(raw.build_dependencies@, DependencyKind::Build, None),
            dependencies@ == untargeted + target_declared(raw.target@.subrange(0, t as int)),
            raw.wf(),
        decreases raw.target.len() - t,
    {
        assert(raw.target@[t as int].1.wf());
        let cfg = Some(raw.target[t].0.clone());
        let tables = &raw.target[t].1;
        push_dependencies(&mut dependencies, &tables.dependencies, DependencyKind::Normal, &cfg);
        push_dependencies(&mut dependencies, &tables.dev_dependencies, DependencyKind::Dev, &cfg);
        push_dependencies(&mut dependencies, &tables.build_dependencies, DependencyKind::Build, &cfg);
        proof {
            let done = raw.target@.subrange(0, t + 1);
            assert(done.drop_last() =~= raw.target@.subrange(0, t as int));
            assert(dependencies@ =~= untargeted + target_declared(done));
        }
        t += 1;
    }
    assert(raw.target@.subrange(0, raw.target@.len() as int) =~= raw.target@);
    let dependencies = sort::sort(dependencies);
    CargoManifest { package_name, package_version, workspace_root: raw.workspace, dependencies }
}

/// The reported dependencies are ordered by kind (normal, dev, build) and
/// then by name, and are exactly the declared ones, each as often as it was
/// declared.
pub proof fn reported_dependencies_are_ordered(manifest: CargoManifest, raw: RawManifest)
    requires
        describes_manifest(manifest, raw),
    ensures
        sort::is_ranked(manifest.dependencies@),
        manifest.dependencies@.to_multiset() == declared_of(raw).to_multiset(),
        manifest.dependencies@.len() == declared_of(raw).len(),
{
    sort::lemma_sorted(declared_of(raw));
}

/// Packages with no `source`: workspace members and path dependencies.
pub open spec fn local_count(packages: Seq<RawLockPackage>) -> nat
    decreases packages.len(),
{
    if packages.len() == 0 {
        0
    } else {
        local_count(packages.drop_last()) + if packages.last().source is None {
            1nat
        } else {
            0nat
        }
    }
}

/// Counts the lockfile's packages, and among them the local ones.
pub fn build_lock(raw: RawLock) -> (lock: CargoLock)
    ensures
        lock.lock_version == raw.version,
        lock.packages == raw.package@.len(),
        lock.local_packages == local_count(raw.package@),
{
    let mut local: usize = 0;
    let mut i: usize = 0;
    while i < raw.package.len()
        invariant
            i <= raw.package@.len(),
            local == local_count(raw.package@.subrange(0, i as int)),
            local <= i,
        decreases raw.package.len() - i,
    {
        assert(raw.package@.subrange(0, i + 1).drop_last() =~= raw.package@.subrange(0, i as int));
        if raw.package[i].source.is_none() {
            local += 1;
        }
        i += 1;
    }
    assert(raw.package@.subrange(0, raw.package@.len() as int) =~= raw.package@);
    CargoLock { lock_version: raw.version, packages: raw.package.len(), local_packages: local }
}

/// The 1-based line holding byte `offset` of `content`: newlines before the
/// offset, plus one. An offset past the end counts to the end; one that falls
/// inside a character counts the whole text.
pub open spec fn line_number_of(content: Seq<u8>, offset: int) -> nat {
    let bounded = if offset < content.len() { offset } else { content.len() as int };
    let prefix = if vstd::utf8::is_char_boundary(content, bounded) {
        content.subrange(0, bounded)
    } else {
        content
    };
    newline_count(prefix) + 1
}

/// Converts a byte offset into a 1-based line number.
fn line_number(content: &str, offset: usize) -> (line: u128)
    ensures
        line == line_number_of(vstd::utf8::encode_utf8(content@), offset as int),
{
    let bytes = content.as_bytes();
    let bounded = if offset < bytes.len() { offset } else { bytes.len() };
    let end = if content.is_char_boundary(bounded) { bounded } else { bytes.len() };
    let ghost prefix = bytes@.subrange(0, end as int);
    let mut count: usize = 0;
    let mut i: usize = 0;
    while i < end
        invariant
            end <= bytes@.len(),
            i <= end,
            count <= i,
            count == newline_count(bytes@.subrange(0, i as int)),
        decreases end - i,
    {
        assert(bytes@.subrange(0, i + 1).drop_last() =~= bytes@.subrange(0, i as int));
        if bytes[i] == 10 {
            count += 1;
        }
        i += 1;
    }
    assert(bytes@.subrange(0, bytes@.len() as int) =~= bytes@);
    count as u128 + 1
}

/// ` (line N)` for a parser error that reports where it stopped, else nothing.
pub open spec fn line_suffix_of(content: Seq<u8>, span: Option<usize>) -> Seq<char> {
    match span {
        Some(offset) => " (line "@ + decimal(line_number_of(content, offset as int)) + ")"@,
        None => seq![],
    }
}

fn push_line_suffix(out: &mut String, content: &str, span: Option<usize>)
    ensures
        final(out)@ == old(out)@ + line_suffix_of(vstd::utf8::encode_utf8(content@), span),
{
    match span {
        Some(offset) => {
            let line = line_number(content, offset);
            text::push_str(out, " (line ");
            text::push_decimal(out, line);
            text::push_str(out, ")");
        },
        None => {},
    }
}

/// The detail for a file a parser refused: its name, what was wrong with it,
/// and where.
pub open spec fn refusal(label: Seq<char>, problem: Seq<char>, content: Seq<char>, span: Option<usize>) -> Seq<char> {
    label + problem + line_suffix_of(vstd::utf8::encode_utf8(content), span)
}

fn refusal_detail(label: &str, problem: &str, content: &str, span: Option<usize>) -> (detail: String)
    ensures
        detail@ == refusal(label@, problem@, content@, span),
{
    let mut detail = text::owned(label);
    text::push_str(&mut detail, problem);
    push_line_suffix(&mut detail, content, span);
    detail
}

/// Whether `text` is a TOML document at all, regardless of its shape:
/// `None` when it parses, else the byte offset where the parser stopped,
/// when it reports one.
pub open spec fn toml_syntax_error(text: Seq<char>) -> Option<Option<usize>> {
    match crate::document::toml_parsed(text) {
        Ok(_) => None,
        Err(offset) => Some(offset),
    }
}

fn check_toml(content: &str) -> (error: Option<Option<usize>>)
    ensures
        error == toml_syntax_error(content@),
{
    match crate::boundary::parse_toml(content) {
        Ok(_) => None,
        Err(offset) => Some(offset),
    }
}

/// What parsing a manifest reports, given whether it is TOML at all
/// (`syntax`) and what deserializing it as a manifest gave (`shape`, with the
/// error's offset). Syntax is decided first, so a value of the wrong type is
/// told apart from text that is not TOML.
pub open spec fn manifest_outcome(
    content: Seq<char>,
    syntax: Option<Option<usize>>,
    shape: Result<RawManifest, Option<usize>>,
    result: Result<CargoManifest, NotEvaluated>,
) -> bool {
    match syntax {
        Some(span) => result matches Err(NotEvaluated::Failed(d)) && d@ == refusal(
            MANIFEST_NAME@,
            " is not valid TOML"@,
            content,
            span,
        ),
        None => match shape {
            Err(span) => result matches Err(NotEvaluated::Failed(d)) && d@ == refusal(
                MANIFEST_NAME@,
                " is not a valid Cargo manifest"@,
                content,
                span,
            ),
            Ok(raw) => result matches Ok(m) && describes_manifest(m, raw),
        },
    }
}

/// The manifest decision once the syntax check has run.
pub fn manifest_from(content: &str, syntax: Option<Option<usize>>, shape: Result<RawManifest, Option<usize>>) -> (result: Result<CargoManifest, NotEvaluated>)
    requires
        shape matches Ok(raw) ==> raw.wf(),
    ensures
        manifest_outcome(content@, syntax, shape, result),
{
    match syntax {
        Some(span) => Err(NotEvaluated::Failed(refusal_detail(MANIFEST_NAME, " is not valid TOML", content, span))),
        None => match shape {
            Err(span) => Err(NotEvaluated::Failed(refusal_detail(MANIFEST_NAME, " is not a valid Cargo manifest", content, span))),
            Ok(raw) => Ok(build_manifest(raw)),
        },
    }
}

/// Parses `content` as a Cargo manifest, in two passes: whether it is TOML
/// at all, checked here, and then `shape`, what deserializing it into the
/// manifest's shape gave. Every failure detail is tool-authored text plus a
/// line number.
pub fn parse_manifest(content: &str, shape: Result<RawManifest, Option<usize>>) -> (result: Result<CargoManifest, NotEvaluated>)
    requires
        shape matches Ok(raw) ==> raw.wf(),
    ensures
        manifest_outcome(content@, toml_syntax_error(content@), shape, result),
{
    let syntax = check_toml(content);
    manifest_from(content, syntax, shape)
}

/// What parsing a lockfile reports; see [`manifest_outcome`].
pub open spec fn lock_outcome(
    content: Seq<char>,
    syntax: Option<Option<usize>>,
    shape: Result<RawLock, Option<usize>>,
    result: Result<CargoLock, NotEvaluated>,
) -> bool {
    match syntax {
        Some(span) => result matches Err(NotEvaluated::Failed(d)) && d@ == refusal(
            LOCK_NAME@,
            " is not valid TOML"@,
            content,
            span,
        ),
        None => match shape {
            Err(span) => result matches Err(NotEvaluated::Failed(d)) && d@ == refusal(
                LOCK_NAME@,
                " is not a valid Cargo lockfile"@,
                content,
                span,
            ),
            Ok(raw) => result matches Ok(lock) && lock.lock_version == raw.version && lock.packages
                == raw.package@.len() && lock.local_packages == local_count(raw.package@),
        },
    }
}

/// The lockfile decision once the syntax check has run.
pub fn lock_from(content: &str, syntax: Option<Option<usize>>, shape: Result<RawLock, Option<usize>>) -> (result: Result<CargoLock, NotEvaluated>)
    ensures
        lock_outcome(content@, syntax, shape, result),
{
    match syntax {
        Some(span) => Err(NotEvaluated::Failed(refusal_detail(LOCK_NAME, " is not valid TOML", content, span))),
        None => match shape {
            Err(span) => Err(NotEvaluated::Failed(refusal_detail(LOCK_NAME, " is not a valid Cargo lockfile", content, span))),
            Ok(raw) => Ok(build_lock(raw)),
        },
    }
}

/// Parses `content` as a Cargo lockfile, in the same two passes as
/// [`parse_manifest`].
pub fn parse_lock(content: &str, shape: Result<RawLock, Option<usize>>) -> (result: Result<CargoLock, NotEvaluated>)
    ensures
        lock_outcome(content@, toml_syntax_error(content@), shape, result),
{
    let syntax = check_toml(content);
    lock_from(content, syntax, shape)
}


/// The manifest analysis: the bounded read of `Cargo.toml` (see
/// [`crate::analysis::read_bounded`]), then the parse; `shape` is consulted
/// only when the file was read as text and is TOML.
pub fn manifest_analysis(read: Result<String, NotEvaluated>, shape: Result<RawManifest, Option<usize>>) -> (analysis: Analysis<CargoManifest>)
    requires
        shape matches Ok(raw) ==> raw.wf(),
    ensures
        match read {
            Err(reason) => analysis == Analysis::<CargoManifest>::NotEvaluated(reason),
            Ok(content) => exists|result: Result<CargoManifest, NotEvaluated>| {
                &&& manifest_outcome(content@, toml_syntax_error(content@), shape, result)
                &&& match result {
                    Ok(m) => analysis == Analysis::Ran(m),
                    Err(reason) => analysis == Analysis::<CargoManifest>::NotEvaluated(reason),
                }
            },
        },
{
    match read {
        Err(reason) => Analysis::NotEvaluated(reason),
        Ok(content) => match parse_manifest(content.as_str(), shape) {
            Ok(manifest) => Analysis::Ran(manifest),
            Err(reason) => Analysis::NotEvaluated(reason),
        },
    }
}

/// The lockfile analysis: the bounded read of `Cargo.lock`, then the parse.
pub fn lock_analysis(read: Result<String, NotEvaluated>, shape: Result<RawLock, Option<usize>>) -> (analysis: Analysis<CargoLock>)
    ensures
        match read {
            Err(reason) => analysis == Analysis::<CargoLock>::NotEvaluated(reason),
            Ok(content) => exists|result: Result<CargoLock, NotEvaluated>| {
                &&& lock_outcome(content@, toml_syntax_error(content@), shape, result)
                &&& match result {
                    Ok(lock) => analysis == Analysis::Ran(lock),
                    Err(reason) => analysis == Analysis::<CargoLock>::NotEvaluated(reason),
                }
            },
        },
{
    match read {
        Err(reason) => Analysis::NotEvaluated(reason),
        Ok(content) => match parse_lock(content.as_str(), shape) {
            Ok(lock) => Analysis::Ran(lock),
            Err(reason) => Analysis::NotEvaluated(reason),
        },
    }
}

/// Both Cargo analyses. They are independent: a manifest with no lockfile
/// is an ordinary repository, so either can run while the other does not.
/// Never fails: every failure becomes a `NotEvaluated` reason.
pub fn analyze(
    config: &ScanConfig,
    manifest: Result<String, NotEvaluated>,
    manifest_shape: Result<RawManifest, Option<usize>>,
    lock: Result<String, NotEvaluated>,
    lock_shape: Result<RawLock, Option<usize>>,
) -> (result: (Analysis<CargoManifest>, Analysis<CargoLock>))
    requires
        manifest_shape matches Ok(raw) ==> raw.wf(),
    ensures
        !config.read_cargo ==> result.0.is_disabled() && result.1.is_disabled(),
        config.read_cargo ==> match manifest {
            Err(reason) => result.0 == Analysis::<CargoManifest>::NotEvaluated(reason),
            Ok(content) => exists|r: Result<CargoManifest, NotEvaluated>| {
                &&& manifest_outcome(content@, toml_syntax_error(content@), manifest_shape, r)
                &&& match r {
                    Ok(m) => result.0 == Analysis::Ran(m),
                    Err(reason) => result.0 == Analysis::<CargoManifest>::NotEvaluated(reason),
                }
            },
        },
        config.read_cargo ==> match lock {
            Err(reason) => result.1 == Analysis::<CargoLock>::NotEvaluated(reason),
            Ok(content) => exists|r: Result<CargoLock, NotEvaluated>| {
                &&& lock_outcome(content@, toml_syntax_error(content@), lock_shape, r)
                &&& match r {
                    Ok(l) => result.1 == Analysis::Ran(l),
                    Err(reason) => result.1 == Analysis::<CargoLock>::NotEvaluated(reason),
                }
            },
        },
{
    if !config.read_cargo {
        return (Analysis::NotEvaluated(NotEvaluated::Disabled), Analysis::NotEvaluated(NotEvaluated::Disabled));
    }
    (manifest_analysis(manifest, manifest_shape), lock_analysis(lock, lock_shape))
}

} // verus!
