use repo_radar::analysis::cargo::{
    analyze, build_lock, parse_lock, parse_manifest, CargoDependency, CargoManifest, DependencyKind,
    DependencySource, RawDependency, RawDetailed, RawLock, RawLockPackage, RawManifest, RawPackage, RawTarget,
    MAX_FILE_BYTES,
};
use repo_radar::analysis::{read_bounded, FileRead};
use repo_radar::{Analysis, NotEvaluated, ScanConfig};

fn version(text: &str) -> RawDependency {
    RawDependency::Version(text.to_owned())
}

fn detailed(version: Option<&str>, git: Option<&str>, path: Option<&str>, workspace: Option<bool>) -> RawDependency {
    RawDependency::Detailed(RawDetailed {
        version: version.map(str::to_owned),
        git: git.map(str::to_owned),
        path: path.map(str::to_owned),
        workspace,
    })
}

/// A dependency table as deserializing it into a map keyed by name gives
/// it: entries by name, each once.
fn table(entries: Vec<(&str, RawDependency)>) -> Vec<(String, RawDependency)> {
    let map: std::collections::BTreeMap<String, RawDependency> =
        entries.into_iter().map(|(name, dependency)| (name.to_owned(), dependency)).collect();
    map.into_iter().collect()
}

fn empty_manifest() -> RawManifest {
    RawManifest {
        package: None,
        workspace: false,
        dependencies: Vec::new(),
        dev_dependencies: Vec::new(),
        build_dependencies: Vec::new(),
        target: Vec::new(),
    }
}

fn manifest(content: &str, shape: RawManifest) -> CargoManifest {
    assert!(shape.well_formed());
    parse_manifest(content, Ok(shape)).expect("manifest should parse")
}

fn dependency<'a>(manifest: &'a CargoManifest, name: &str) -> &'a CargoDependency {
    manifest
        .dependencies
        .iter()
        .find(|dependency| dependency.name == name)
        .unwrap_or_else(|| panic!("dependency {name} should be present"))
}

#[test]
fn parses_every_dependency_declaration_shape() {
    let content = r#"
            [package]
            name = "fixture"
            version = "0.1.0"

            [dependencies]
            simple = "1"
            inline = { version = "2", features = ["a"] }
            inherited = { workspace = true }
            gitdep = { git = "https://example.invalid/repo.git" }

            [dependencies.tableform]
            version = "3"
            "#;
    // What deserializing the content gives: each table in key order.
    let shape = RawManifest {
        package: Some(RawPackage { name: Some("fixture".to_owned()), version: Some("0.1.0".to_owned()) }),
        dependencies: table(vec![
            ("gitdep", detailed(None, Some("https://example.invalid/repo.git"), None, None)),
            ("inherited", detailed(None, None, None, Some(true))),
            ("inline", detailed(Some("2"), None, None, None)),
            ("simple", version("1")),
            ("tableform", detailed(Some("3"), None, None, None)),
        ]),
        ..empty_manifest()
    };
    let manifest = manifest(content, shape);

    let simple = dependency(&manifest, "simple");
    assert_eq!(simple.requirement.as_deref(), Some("1"));
    assert_eq!(simple.source, DependencySource::Registry);

    let inline = dependency(&manifest, "inline");
    assert_eq!(inline.requirement.as_deref(), Some("2"));
    assert_eq!(inline.source, DependencySource::Registry);

    let inherited = dependency(&manifest, "inherited");
    assert_eq!(inherited.requirement, None);
    assert_eq!(inherited.source, DependencySource::Workspace);

    let gitdep = dependency(&manifest, "gitdep");
    assert_eq!(gitdep.requirement, None);
    assert_eq!(gitdep.source, DependencySource::Git);

    let tableform = dependency(&manifest, "tableform");
    assert_eq!(tableform.requirement.as_deref(), Some("3"));
    assert_eq!(tableform.source, DependencySource::Registry);
}

#[test]
fn parses_dependency_kinds() {
    let content = r#"
            [dependencies]
            normal-dep = "1"

            [dev-dependencies]
            dev-dep = "1"

            [build-dependencies]
            build-dep = "1"
            "#;
    let shape = RawManifest {
        dependencies: table(vec![("normal-dep", version("1"))]),
        dev_dependencies: table(vec![("dev-dep", version("1"))]),
        build_dependencies: table(vec![("build-dep", version("1"))]),
        ..empty_manifest()
    };
    let manifest = manifest(content, shape);

    assert_eq!(dependency(&manifest, "normal-dep").kind, DependencyKind::Normal);
    assert_eq!(dependency(&manifest, "dev-dep").kind, DependencyKind::Dev);
    assert_eq!(dependency(&manifest, "build-dep").kind, DependencyKind::Build);
}

#[test]
fn parses_target_specific_dependencies() {
    let content = r#"
            [target.'cfg(unix)'.dependencies]
            libc = "0.2"
            "#;
    let shape = RawManifest {
        target: vec![(
            "cfg(unix)".to_owned(),
            RawTarget {
                dependencies: table(vec![("libc", version("0.2"))]),
                dev_dependencies: Vec::new(),
                build_dependencies: Vec::new(),
            },
        )],
        ..empty_manifest()
    };
    let manifest = manifest(content, shape);

    let libc = dependency(&manifest, "libc");
    assert_eq!(libc.target.as_deref(), Some("cfg(unix)"));
    assert_eq!(libc.kind, DependencyKind::Normal);
}

#[test]
fn dependencies_are_sorted_by_kind_then_name() {
    let content = r#"
            [build-dependencies]
            zebra = "1"

            [dependencies]
            zebra = "1"
            apple = "1"

            [dev-dependencies]
            middle = "1"
            "#;
    // The manifest lists zebra before apple; the table, like the map it
    // stands for, hands them over by name.
    let shape = RawManifest {
        dependencies: table(vec![("zebra", version("1")), ("apple", version("1"))]),
        dev_dependencies: table(vec![("middle", version("1"))]),
        build_dependencies: table(vec![("zebra", version("1"))]),
        ..empty_manifest()
    };
    let manifest = manifest(content, shape);

    let ordered: Vec<(DependencyKind, &str)> =
        manifest.dependencies.iter().map(|dependency| (dependency.kind, dependency.name.as_str())).collect();

    assert_eq!(
        ordered,
        vec![
            (DependencyKind::Normal, "apple"),
            (DependencyKind::Normal, "zebra"),
            (DependencyKind::Dev, "middle"),
            (DependencyKind::Build, "zebra"),
        ],
        "deliberately unsorted input must still produce (kind, name) order"
    );
}

#[test]
fn virtual_workspace_manifest_has_no_package() {
    let content = r#"
            [workspace]
            members = ["crates/*"]
            "#;
    let manifest = manifest(content, RawManifest { workspace: true, ..empty_manifest() });

    assert_eq!(manifest.package_name, None);
    assert_eq!(manifest.package_version, None);
    assert!(manifest.workspace_root);
}

#[test]
fn unknown_tables_are_ignored() {
    let content = r#"
            [package]
            name = "fixture"

            [lints]
            workspace = true

            [features]
            default = []

            [invented-table]
            whatever = "value"
            "#;
    let shape = RawManifest {
        package: Some(RawPackage { name: Some("fixture".to_owned()), version: None }),
        ..empty_manifest()
    };
    let manifest = manifest(content, shape);

    assert_eq!(manifest.package_name.as_deref(), Some("fixture"));
}

#[test]
fn lockfile_counts_packages_and_local_packages() {
    let content = r#"
            version = 4

            [[package]]
            name = "fetched"
            version = "1.0.0"
            source = "registry+https://github.com/rust-lang/crates.io-index"

            [[package]]
            name = "workspace-member"
            version = "0.1.0"
            "#;
    let shape = RawLock {
        version: Some(4),
        package: vec![
            RawLockPackage { source: Some("registry+https://github.com/rust-lang/crates.io-index".to_owned()) },
            RawLockPackage { source: None },
        ],
    };
    let lock = parse_lock(content, Ok(shape)).expect("lockfile should parse");

    assert_eq!(lock.lock_version, Some(4));
    assert_eq!(lock.packages, 2);
    assert_eq!(lock.local_packages, 1);
}

#[test]
fn malformed_toml_reports_the_line_and_nothing_else() {
    let content = "[package]\nname = \"ok\"\nevil = \u{1b}[31mAPI_KEY_sk_live_abc123 unterminated\n";

    let error = parse_manifest(content, Err(None)).expect_err("malformed TOML must not parse");
    let NotEvaluated::Failed(detail) = error else {
        panic!("a parse failure must report Failed, got {error:?}");
    };

    assert!(detail.contains("line 3"), "detail should name the offending line: {detail:?}");
    for forbidden in ["API_KEY", "sk_live", "\u{1b}"] {
        assert!(!detail.contains(forbidden), "detail leaked repository content ({forbidden:?}): {detail:?}");
    }
}

#[test]
fn type_error_does_not_leak_the_offending_value() {
    let content = "package = \"sk_live_SECRET_VALUE\"\n";

    // Deserializing a string where the package table belongs fails at the
    // string's start.
    let error = parse_manifest(content, Err(Some(10))).expect_err("a string is not a valid package table");
    let NotEvaluated::Failed(detail) = error else {
        panic!("a shape failure must report Failed, got {error:?}");
    };

    assert!(!detail.contains("sk_live_SECRET_VALUE"), "detail leaked the offending value: {detail:?}");
    assert_eq!(detail, "Cargo.toml is not a valid Cargo manifest (line 1)");
}

#[test]
fn malformed_toml_is_told_apart_from_a_wrong_shape() {
    let error = parse_manifest("a = \n", Ok(empty_manifest())).expect_err("no value after `=`");
    let NotEvaluated::Failed(detail) = error else {
        panic!("a parse failure must report Failed");
    };
    assert!(detail.starts_with("Cargo.toml is not valid TOML"), "{detail:?}");

    let error = parse_lock("[[package]\n", Ok(RawLock { version: None, package: Vec::new() }))
        .expect_err("an unclosed array header");
    let NotEvaluated::Failed(detail) = error else {
        panic!("a parse failure must report Failed");
    };
    assert!(detail.starts_with("Cargo.lock is not valid TOML"), "{detail:?}");

    let error = parse_lock("version = \"four\"\n", Err(None)).expect_err("a wrong shape");
    assert_eq!(error, NotEvaluated::Failed("Cargo.lock is not a valid Cargo lockfile".to_owned()));
}

#[test]
fn a_dependency_source_follows_its_declaration() {
    let shape = RawManifest {
        dependencies: table(vec![
            ("both", detailed(Some("1"), Some("https://example.invalid/x.git"), Some("../x"), Some(true))),
            ("git-and-path", detailed(None, Some("https://example.invalid/y.git"), Some("../y"), None)),
            ("local", detailed(None, None, Some("../z"), Some(false))),
            ("plain", detailed(Some("2"), None, None, None)),
        ]),
        ..empty_manifest()
    };
    let manifest = manifest("", shape);

    assert_eq!(dependency(&manifest, "both").source, DependencySource::Workspace);
    assert_eq!(dependency(&manifest, "both").requirement.as_deref(), Some("1"));
    assert_eq!(dependency(&manifest, "git-and-path").source, DependencySource::Git);
    assert_eq!(dependency(&manifest, "local").source, DependencySource::Path);
    assert_eq!(dependency(&manifest, "plain").source, DependencySource::Registry);
    assert_eq!(DependencySource::Workspace.label(), "workspace");
    assert_eq!(DependencyKind::Build.label(), "build");
}

#[test]
fn target_entries_keep_their_declaration_order_on_a_tie() {
    let target = |cfg: &str| {
        (
            cfg.to_owned(),
            RawTarget {
                dependencies: table(vec![("libc", version("0.2"))]),
                dev_dependencies: Vec::new(),
                build_dependencies: Vec::new(),
            },
        )
    };
    let shape = RawManifest {
        dependencies: table(vec![("libc", version("0.1"))]),
        target: vec![target("cfg(unix)"), target("cfg(windows)")],
        ..empty_manifest()
    };
    let manifest = manifest("", shape);

    let targets: Vec<Option<&str>> = manifest.dependencies.iter().map(|d| d.target.as_deref()).collect();
    assert_eq!(targets, vec![None, Some("cfg(unix)"), Some("cfg(windows)")]);
}

#[test]
fn lockfile_without_packages_counts_none() {
    let lock = build_lock(RawLock { version: None, package: Vec::new() });

    assert_eq!(lock.lock_version, None);
    assert_eq!(lock.packages, 0);
    assert_eq!(lock.local_packages, 0);
}

#[test]
fn bounded_reads_refuse_before_reading() {
    let oversized = FileRead::Found { len: MAX_FILE_BYTES + 1, contents: None };
    assert_eq!(
        read_bounded("Cargo.toml", MAX_FILE_BYTES, oversized),
        Err(NotEvaluated::Failed("Cargo.toml exceeds the size limit".to_owned()))
    );
    assert_eq!(
        read_bounded("Cargo.toml", MAX_FILE_BYTES, FileRead::Missing),
        Err(NotEvaluated::InputUnavailable("no Cargo.toml at the repository root".to_owned()))
    );
    assert_eq!(
        read_bounded("Cargo.toml", MAX_FILE_BYTES, FileRead::Found { len: 3, contents: None }),
        Err(NotEvaluated::Failed("Cargo.toml could not be read".to_owned()))
    );
    assert_eq!(
        read_bounded("Cargo.toml", MAX_FILE_BYTES, FileRead::Found { len: 2, contents: Some(vec![0xff, 0xfe]) }),
        Err(NotEvaluated::Failed("Cargo.toml is not valid UTF-8".to_owned()))
    );
    assert_eq!(
        read_bounded("Cargo.toml", MAX_FILE_BYTES, FileRead::Found { len: 3, contents: Some(b"a=1".to_vec()) }),
        Ok("a=1".to_owned())
    );
}

#[test]
fn analyze_reads_the_two_files_independently() {
    let config = ScanConfig::default();
    let missing = Err(NotEvaluated::InputUnavailable("no Cargo.lock at the repository root".to_owned()));
    let shape = RawManifest {
        package: Some(RawPackage { name: Some("x".to_owned()), version: Some("1.0.0".to_owned()) }),
        ..empty_manifest()
    };

    let (manifest, lock) =
        analyze(&config, Ok("[package]\nname = \"x\"\nversion = \"1.0.0\"\n".to_owned()), Ok(shape), missing.clone(), Err(None));

    let Analysis::Ran(manifest) = manifest else {
        panic!("the manifest must be read");
    };
    assert_eq!(manifest.package_name.as_deref(), Some("x"));
    assert_eq!(lock, Analysis::NotEvaluated(NotEvaluated::InputUnavailable("no Cargo.lock at the repository root".to_owned())));

    let off = ScanConfig { read_cargo: false, ..ScanConfig::default() };
    let (manifest, lock) = analyze(&off, missing.clone(), Err(None), missing, Err(None));
    assert_eq!(manifest, Analysis::NotEvaluated(NotEvaluated::Disabled));
    assert_eq!(lock, Analysis::NotEvaluated(NotEvaluated::Disabled));
}

#[test]
fn a_manifest_shape_is_well_formed_only_with_its_tables_by_name() {
    let ordered = RawManifest { dependencies: table(vec![("b", version("1")), ("a", version("1"))]), ..empty_manifest() };
    assert!(ordered.well_formed());

    let unordered = RawManifest {
        dependencies: vec![("b".to_owned(), version("1")), ("a".to_owned(), version("1"))],
        ..empty_manifest()
    };
    assert!(!unordered.well_formed());

    let repeated = RawManifest {
        dev_dependencies: vec![("a".to_owned(), version("1")), ("a".to_owned(), version("2"))],
        ..empty_manifest()
    };
    assert!(!repeated.well_formed());
}
