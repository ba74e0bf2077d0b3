use repo_radar::languages::{language_for_extension, NO_EXTENSION, UNRECOGNIZED};
use repo_radar::scan::{extension_label, file_extension, language_label};

#[test]
fn maps_known_extensions() {
    assert_eq!(language_for_extension("rs"), Some("Rust"));
    assert_eq!(language_for_extension("yml"), Some("YAML"));
    assert_eq!(language_for_extension("yaml"), Some("YAML"));
    assert_eq!(language_for_extension("cc"), Some("C++"));
}

#[test]
fn returns_none_for_unmapped_extensions() {
    assert_eq!(language_for_extension("xyz"), None);
    assert_eq!(language_for_extension(NO_EXTENSION), None);
}

#[test]
fn extensions_are_lower_cased_and_grouped_by_language() {
    assert_eq!(file_extension("Main.RS").as_deref(), Some("RS"));
    assert_eq!(file_extension("archive.tar.gz").as_deref(), Some("gz"));
    assert_eq!(file_extension("Makefile"), None);
    assert_eq!(file_extension(".gitignore"), None);
    assert_eq!(extension_label(Some("RS")), "rs");
    assert_eq!(extension_label(None), NO_EXTENSION);
    assert_eq!(language_label("rs"), "Rust");
    assert_eq!(language_label(NO_EXTENSION), NO_EXTENSION);
    assert_eq!(language_label("xyz"), UNRECOGNIZED);
}
