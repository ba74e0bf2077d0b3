use repo_radar::analysis::profile::{
    analyze, cap_statement, choose_readme, extract_cargo, extract_go_mod, extract_json_description,
    extract_pyproject, extract_readme_paragraph, finish_purpose, normalize_statement, strip_html_comments,
    strip_links_and_images, ManifestExtract, PurposeInputs, PurposeSource, MAX_STATEMENT_CHARS, NO_PURPOSE_FOUND,
    WARN_MALFORMED, WARN_UNREADABLE,
};
use repo_radar::analysis::{Confidence, FileRead};
use repo_radar::{Analysis, NotEvaluated, ScanConfig};

fn file(contents: &str) -> FileRead {
    FileRead::Found { len: contents.len() as u64, contents: Some(contents.as_bytes().to_vec()) }
}

fn nothing() -> PurposeInputs {
    PurposeInputs {
        cargo_toml: FileRead::Missing,
        package_json: FileRead::Missing,
        pyproject_toml: FileRead::Missing,
        composer_json: FileRead::Missing,
        go_mod: FileRead::Missing,
        readme: None,
        git_description: None,
    }
}

#[test]
fn readme_paragraph_skips_comments_headings_and_badges() {
    let readme = "\
<!-- generated -->
# Project Title
=============
[![Build](https://example.invalid/badge.svg)](https://example.invalid/build)
[![Coverage](https://example.invalid/cov.svg)](https://example.invalid/cov)
[![License](https://example.invalid/lic.svg)](https://example.invalid/license)
---

This project does the thing.
";

    let statement = extract_readme_paragraph(readme).expect("real prose follows the noise");

    assert_eq!(statement, "This project does the thing.");
}

#[test]
fn readme_paragraph_skips_setext_headings_not_just_their_underlines() {
    let equals = "\
Project Title
=============

The real purpose statement.
";
    let dashes = "\
Project Title
-------------

The real purpose statement.
";

    for readme in [equals, dashes] {
        let statement = extract_readme_paragraph(readme).expect("prose follows the Setext heading");

        assert_eq!(statement, "The real purpose statement.", "a Setext heading's title must not become the purpose");
    }
}

#[test]
fn readme_paragraph_stops_before_a_following_setext_heading() {
    let readme = "\
The real purpose statement.
Installation
============
";

    let statement = extract_readme_paragraph(readme).expect("the first paragraph is prose");

    assert_eq!(statement, "The real purpose statement.");
}

#[test]
fn readme_paragraph_skips_yaml_and_toml_front_matter() {
    let yaml = "\
---
title: Docs Site
layout: home
---

The actual description.
";
    let toml_matter = "\
+++
title = \"Docs Site\"
+++

The actual description.
";

    for readme in [yaml, toml_matter] {
        let statement = extract_readme_paragraph(readme).expect("prose follows front matter");

        assert_eq!(statement, "The actual description.");
    }
}

#[test]
fn an_unclosed_front_matter_delimiter_keeps_the_content() {
    let readme = "\
---

The actual description.
";

    let statement = extract_readme_paragraph(readme).expect("content survives");

    assert_eq!(statement, "The actual description.");
}

#[test]
fn readme_paragraph_skips_fenced_code_and_html_blocks() {
    let readme = "\
```rust
fn main() {}
```
<p>Raw HTML block, not the paragraph.</p>

The real purpose statement lives here.
";

    let statement = extract_readme_paragraph(readme).expect("prose follows the noise");

    assert_eq!(statement, "The real purpose statement lives here.");
}

#[test]
fn readme_paragraph_joins_wrapped_lines_and_collapses_whitespace() {
    let readme = "This   is\na   wrapped     paragraph\nspanning three lines.\n";

    let extracted = extract_readme_paragraph(readme).expect("a paragraph is present");
    let normalized = normalize_statement(&extracted);

    assert_eq!(normalized, "This is a wrapped paragraph spanning three lines.");
}

#[test]
fn statement_is_capped_on_a_character_boundary() {
    let paragraph: String = std::iter::repeat_n('日', 2000).collect();
    let readme = format!("{paragraph}\n");

    let extracted = extract_readme_paragraph(&readme).expect("a paragraph is present");
    let normalized = normalize_statement(&extracted);
    let (statement, truncated) = cap_statement(&normalized);

    assert!(statement.chars().count() <= MAX_STATEMENT_CHARS);
    assert!(truncated);
    assert!(std::str::from_utf8(statement.as_bytes()).is_ok());
}

#[test]
fn a_short_statement_is_not_marked_truncated() {
    let (statement, truncated) = cap_statement("A short purpose statement.");

    assert_eq!(statement, "A short purpose statement.");
    assert!(!truncated);
}

#[test]
fn a_cut_falls_back_to_the_last_space_in_the_window() {
    let words = "word ".repeat(150);
    let (statement, truncated) = cap_statement(&words);

    assert!(truncated);
    assert_eq!(statement.chars().count(), 499, "cut at the last space before the cap");
    assert!(statement.ends_with("word"));

    let solid = "x".repeat(600);
    let (statement, truncated) = cap_statement(&solid);
    assert!(truncated);
    assert_eq!(statement, "x".repeat(500), "no space in the window: cut at the cap itself");
}

#[test]
fn normalizing_collapses_every_kind_of_whitespace() {
    assert_eq!(normalize_statement("  a\t\tb\u{a0}\u{2003}c \n"), "a b c");
    assert_eq!(normalize_statement(" \t\n "), "");
    assert_eq!(normalize_statement(&normalize_statement(" x  y ")), "x y");
}

#[test]
fn comments_are_removed_across_lines_and_unterminated_ones_swallow_the_rest() {
    assert_eq!(strip_html_comments("a<!-- one\ntwo -->b<!--c-->d"), "abd");
    assert_eq!(strip_html_comments("keep<!-- never closed"), "keep");
    assert_eq!(strip_html_comments("no comments"), "no comments");
}

#[test]
fn links_and_images_are_stripped_in_one_pass() {
    assert_eq!(strip_links_and_images("[![alt](img.svg)](https://x) tail"), " tail");
    assert_eq!(strip_links_and_images("see [docs][ref] now"), "see  now");
    assert_eq!(strip_links_and_images("a [label] b"), "a [label] b");
    assert_eq!(strip_links_and_images("open [never"), "open [never");
    assert_eq!(strip_links_and_images("x [t](unclosed"), "x [t](unclosed");
    assert_eq!(strip_links_and_images("日本 ![i](u) 語"), "日本  語");
}

#[test]
fn go_mod_reads_the_module_directive() {
    assert_eq!(
        extract_go_mod("// header\nmodule github.com/example/fixture // the module\n\ngo 1.22\n"),
        ManifestExtract::Found("github.com/example/fixture".to_owned())
    );
    assert_eq!(extract_go_mod("module (\n  example.com/x\n)\n"), ManifestExtract::Miss);
    assert_eq!(extract_go_mod("modulename x\n"), ManifestExtract::Miss);
    assert_eq!(extract_go_mod("\tmodule\texample.com/tabs\n"), ManifestExtract::Found("example.com/tabs".to_owned()));
    let late = format!("{}module example.com/late\n", "\n".repeat(200));
    assert_eq!(extract_go_mod(&late), ManifestExtract::Miss, "only the first 200 lines are read");
}

#[test]
fn manifest_descriptions_come_from_each_format() {
    assert_eq!(
        extract_cargo("[package]\nname = \"x\"\ndescription = \"cargo desc\"\n"),
        ManifestExtract::Found("cargo desc".to_owned())
    );
    assert_eq!(extract_cargo("[package]\nname = \"x\"\ndescription.workspace = true\n"), ManifestExtract::Miss);
    assert_eq!(extract_cargo("[package\n"), ManifestExtract::Malformed);
    assert_eq!(
        extract_pyproject("[tool.poetry]\ndescription = \"poetry desc\"\n"),
        ManifestExtract::Found("poetry desc".to_owned())
    );
    assert_eq!(
        extract_pyproject("[project]\ndescription = \"project desc\"\n[tool.poetry]\ndescription = \"no\"\n"),
        ManifestExtract::Found("project desc".to_owned())
    );
    assert_eq!(
        extract_json_description(r#"{"description": "json desc"}"#),
        ManifestExtract::Found("json desc".to_owned())
    );
    assert_eq!(extract_json_description(r#"{"description": 3}"#), ManifestExtract::Miss);
    assert_eq!(extract_json_description("{not json"), ManifestExtract::Malformed);
}

#[test]
fn readme_candidates_are_chosen_by_rank_then_name() {
    let names = |list: &[&str]| list.iter().map(|name| (*name).to_owned()).collect::<Vec<String>>();

    assert_eq!(choose_readme(&names(&["README.txt", "notes.md", "README.md"])).as_deref(), Some("README.md"));
    assert_eq!(choose_readme(&names(&["readme.md", "README.md"])).as_deref(), Some("README.md"));
    assert_eq!(choose_readme(&names(&["README.md", "readme.md"])).as_deref(), Some("README.md"));
    assert_eq!(choose_readme(&names(&["Readme", "README.rst"])).as_deref(), Some("README.rst"));
    assert_eq!(choose_readme(&names(&["README.mdx", "main.rs"])), None);
}

#[test]
fn manifest_description_wins_over_the_readme() {
    let inputs = PurposeInputs {
        cargo_toml: file("[package]\nname = \"fixture\"\ndescription = \"A fixture crate\"\n"),
        readme: Some(("README.md".to_owned(), file("# Fixture\n\nSome README prose that should not win.\n"))),
        ..nothing()
    };

    let (purpose, warnings) = analyze("/repo", &ScanConfig::default(), inputs);

    assert!(warnings.is_empty());
    let Analysis::Ran(purpose) = purpose else {
        panic!("expected the manifest description to be found");
    };
    assert_eq!(purpose.statement, "A fixture crate");
    assert_eq!(purpose.evidence, "Cargo.toml");
    assert_eq!(purpose.source, PurposeSource::Manifest);
    assert_eq!(purpose.confidence, Confidence::Certain);
    assert!(!purpose.truncated);
}

#[test]
fn a_malformed_manifest_warns_and_the_walk_goes_on() {
    let inputs = PurposeInputs {
        cargo_toml: file("[package]\nname = \"ok\"\nevil = \u{1b}[31mAPI_KEY_sk_live_abc123 unterminated\n"),
        package_json: FileRead::Found { len: 10, contents: None },
        readme: Some(("README.md".to_owned(), file("# Fixture\n\nA real purpose statement from the README.\n"))),
        ..nothing()
    };

    let (purpose, warnings) = analyze("/repo", &ScanConfig::default(), inputs);

    let Analysis::Ran(purpose) = purpose else {
        panic!("the README must still be used despite the malformed manifest");
    };
    assert_eq!(purpose.source, PurposeSource::Readme);
    assert_eq!(purpose.confidence, Confidence::Inferred);
    assert_eq!(purpose.evidence, "README.md");
    assert_eq!(warnings.len(), 2);
    assert_eq!(warnings[0].path, "/repo/Cargo.toml");
    assert_eq!(warnings[0].message, WARN_MALFORMED);
    assert_eq!(warnings[1].path, "/repo/package.json");
    assert_eq!(warnings[1].message, WARN_UNREADABLE);
    for forbidden in ["API_KEY", "sk_live", "\u{1b}"] {
        assert!(!warnings[0].message.contains(forbidden));
    }
}

#[test]
fn the_git_description_is_the_last_resort() {
    let placeholder = PurposeInputs {
        git_description: Some(file("Unnamed repository; edit this file 'description' to name the repository.\n")),
        ..nothing()
    };
    let (purpose, _) = analyze(".", &ScanConfig::default(), placeholder);
    assert_eq!(purpose, Analysis::NotEvaluated(NotEvaluated::InputUnavailable(NO_PURPOSE_FOUND.to_owned())));

    let written = PurposeInputs { git_description: Some(file("A real, human-written description.\n")), ..nothing() };
    let (purpose, _) = analyze(".", &ScanConfig::default(), written);
    let Analysis::Ran(purpose) = purpose else {
        panic!("expected the git description to be used");
    };
    assert_eq!(purpose.source, PurposeSource::GitDescription);
    assert_eq!(purpose.evidence, ".git/description");
    assert_eq!(purpose.statement, "A real, human-written description.");
}

#[test]
fn nothing_found_names_what_was_looked_for() {
    let (purpose, warnings) = analyze(".", &ScanConfig::default(), nothing());

    assert!(warnings.is_empty());
    match purpose {
        Analysis::NotEvaluated(NotEvaluated::InputUnavailable(detail)) => {
            assert!(detail.contains("manifest"));
            assert!(detail.contains("README"));
            assert!(detail.contains("Git"));
        }
        other => panic!("expected NotEvaluated(InputUnavailable(..)), got {other:?}"),
    }

    let off = ScanConfig { read_profile: false, ..ScanConfig::default() };
    let (purpose, warnings) = analyze(".", &off, nothing());
    assert_eq!(purpose, Analysis::NotEvaluated(NotEvaluated::Disabled));
    assert!(warnings.is_empty());
}

#[test]
fn a_purpose_that_normalizes_to_nothing_is_a_miss() {
    assert_eq!(finish_purpose(" \n\t ", "x", PurposeSource::Manifest, Confidence::Certain), None);
    let purpose = finish_purpose(" a \n b ", "go.mod", PurposeSource::Manifest, Confidence::Certain)
        .expect("text remains");
    assert_eq!(purpose.statement, "a b");
    assert_eq!(PurposeSource::GitDescription.label(), "git_description");
}
