//! Extension-to-language mapping used to group files into language families.
//!
//! The table is versioned static data: every entry is deliberate, and the
//! version constant travels with the JSON report so a consumer can tell
//! whether a difference in `by_language` came from the repository or from a
//! table update.
use vstd::prelude::*;

use crate::text;

verus! {

/// Version of the extension-to-language table. Bump on any entry change.
pub const LANGUAGE_TABLE_VERSION: u32 = 1;

/// Files whose extension is not in the table.
pub const UNRECOGNIZED: &'static str = "[unrecognized]";

/// Files with no extension at all.
pub const NO_EXTENSION: &'static str = "[no extension]";

/// The extension-to-language table: the language family of a lowercase,
/// dotless extension, or `None` when the table does not list it.
pub open spec fn language_of(extension: Seq<char>) -> Option<Seq<char>> {
    if extension == "bash"@ {
        Some("Shell"@)
    } else if extension == "c"@ {
        Some("C"@)
    } else if extension == "cc"@ {
        Some("C++"@)
    } else if extension == "cjs"@ {
        Some("JavaScript"@)
    } else if extension == "cpp"@ {
        Some("C++"@)
    } else if extension == "csv"@ {
        Some("CSV"@)
    } else if extension == "css"@ {
        Some("CSS"@)
    } else if extension == "go"@ {
        Some("Go"@)
    } else if extension == "h"@ {
        Some("C"@)
    } else if extension == "hpp"@ {
        Some("C++"@)
    } else if extension == "html"@ {
        Some("HTML"@)
    } else if extension == "java"@ {
        Some("Java"@)
    } else if extension == "js"@ {
        Some("JavaScript"@)
    } else if extension == "json"@ {
        Some("JSON"@)
    } else if extension == "jsx"@ {
        Some("JavaScript"@)
    } else if extension == "kt"@ {
        Some("Kotlin"@)
    } else if extension == "lock"@ {
        Some("Lockfile"@)
    } else if extension == "md"@ {
        Some("Markdown"@)
    } else if extension == "mjs"@ {
        Some("JavaScript"@)
    } else if extension == "py"@ {
        Some("Python"@)
    } else if extension == "rb"@ {
        Some("Ruby"@)
    } else if extension == "rs"@ {
        Some("Rust"@)
    } else if extension == "sh"@ {
        Some("Shell"@)
    } else if extension == "sql"@ {
        Some("SQL"@)
    } else if extension == "toml"@ {
        Some("TOML"@)
    } else if extension == "ts"@ {
        Some("TypeScript"@)
    } else if extension == "tsx"@ {
        Some("TypeScript"@)
    } else if extension == "txt"@ {
        Some("Plain text"@)
    } else if extension == "xml"@ {
        Some("XML"@)
    } else if extension == "yaml"@ {
        Some("YAML"@)
    } else if extension == "yml"@ {
        Some("YAML"@)
    } else if extension == "zsh"@ {
        Some("Shell"@)
    } else {
        None
    }
}

/// Resolves a lowercase, dotless extension to a language family.
///
/// Returns `None` when the extension is not in the table, including for the
/// `[no extension]` sentinel; the caller decides how to label that gap.
pub fn language_for_extension(extension: &str) -> (language: Option<&'static str>)
    ensures
        match language {
            Some(name) => language_of(extension@) == Some(name@),
            None => language_of(extension@) is None,
        },
{
    let e = text::chars_of(extension);
    let n = e.len();
    assert(e@.subrange(0, n as int) =~= extension@);
    if text::chars_eq(&e, 0, n, &text::chars_of("bash")) {
        return Some("Shell");
    }
    if text::chars_eq(&e, 0, n, &text::chars_of("c")) {
        return Some("C");
    }
    if text::chars_eq(&e, 0, n, &text::chars_of("cc")) {
        return Some("C++");
    }
    if text::chars_eq(&e, 0, n, &text::chars_of("cjs")) {
        return Some("JavaScript");
    }
    if text::chars_eq(&e, 0, n, &text::chars_of("cpp")) {
        return Some("C++");
    }
    if text::chars_eq(&e, 0, n, &text::chars_of("csv")) {
        return Some("CSV");
    }
    if text::chars_eq(&e, 0, n, &text::chars_of("css")) {
        return Some("CSS");
    }
    if text::chars_eq(&e, 0, n, &text::chars_of("go")) {
        return Some("Go");
    }
    if text::chars_eq(&e, 0, n, &text::chars_of("h")) {
        return Some("C");
    }
    if text::chars_eq(&e, 0, n, &text::chars_of("hpp")) {
        return Some("C++");
    }
    if text::chars_eq(&e, 0, n, &text::chars_of("html")) {
        return Some("HTML");
    }
    if text::chars_eq(&e, 0, n, &text::chars_of("java")) {
        return Some("Java");
    }
    if text::chars_eq(&e, 0, n, &text::chars_of("js")) {
        return Some("JavaScript");
    }
    if text::chars_eq(&e, 0, n, &text::chars_of("json")) {
        return Some("JSON");
    }
    if text::chars_eq(&e, 0, n, &text::chars_of("jsx")) {
        return Some("JavaScript");
    }
    if text::chars_eq(&e, 0, n, &text::chars_of("kt")) {
        return Some("Kotlin");
    }
    if text::chars_eq(&e, 0, n, &text::chars_of("lock")) {
        return Some("Lockfile");
    }
    if text::chars_eq(&e, 0, n, &text::chars_of("md")) {
        return Some("Markdown");
    }
    if text::chars_eq(&e, 0, n, &text::chars_of("mjs")) {
        return Some("JavaScript");
    }
    if text::chars_eq(&e, 0, n, &text::chars_of("py")) {
        return Some("Python");
    }
    if text::chars_eq(&e, 0, n, &text::chars_of("rb")) {
        return Some("Ruby");
    }
    if text::chars_eq(&e, 0, n, &text::chars_of("rs")) {
        return Some("Rust");
    }
    if text::chars_eq(&e, 0, n, &text::chars_of("sh")) {
        return Some("Shell");
    }
    if text::chars_eq(&e, 0, n, &text::chars_of("sql")) {
        return Some("SQL");
    }
    if text::chars_eq(&e, 0, n, &text::chars_of("toml")) {
        return Some("TOML");
    }
    if text::chars_eq(&e, 0, n, &text::chars_of("ts")) {
        return Some("TypeScript");
    }
    if text::chars_eq(&e, 0, n, &text::chars_of("tsx")) {
        return Some("TypeScript");
    }
    if text::chars_eq(&e, 0, n, &text::chars_of("txt")) {
        return Some("Plain text");
    }
    if text::chars_eq(&e, 0, n, &text::chars_of("xml")) {
        return Some("XML");
    }
    if text::chars_eq(&e, 0, n, &text::chars_of("yaml")) {
        return Some("YAML");
    }
    if text::chars_eq(&e, 0, n, &text::chars_of("yml")) {
        return Some("YAML");
    }
    if text::chars_eq(&e, 0, n, &text::chars_of("zsh")) {
        return Some("Shell");
    }
    None
}


/// Each extension of the table names its language family: `py` is Python,
/// `rb` Ruby, `rs` Rust, and so on for every row.
pub proof fn every_extension_names_its_language()
    ensures
        language_of("bash"@) == Some("Shell"@),
        language_of("c"@) == Some("C"@),
        language_of("cc"@) == Some("C++"@),
        language_of("cjs"@) == Some("JavaScript"@),
        language_of("cpp"@) == Some("C++"@),
        language_of("csv"@) == Some("CSV"@),
        language_of("css"@) == Some("CSS"@),
        language_of("go"@) == Some("Go"@),
        language_of("h"@) == Some("C"@),
        language_of("hpp"@) == Some("C++"@),
        language_of("html"@) == Some("HTML"@),
        language_of("java"@) == Some("Java"@),
        language_of("js"@) == Some("JavaScript"@),
        language_of("json"@) == Some("JSON"@),
        language_of("jsx"@) == Some("JavaScript"@),
        language_of("kt"@) == Some("Kotlin"@),
        language_of("lock"@) == Some("Lockfile"@),
        language_of("md"@) == Some("Markdown"@),
        language_of("mjs"@) == Some("JavaScript"@),
        language_of("py"@) == Some("Python"@),
        language_of("rb"@) == Some("Ruby"@),
        language_of("rs"@) == Some("Rust"@),
        language_of("sh"@) == Some("Shell"@),
        language_of("sql"@) == Some("SQL"@),
        language_of("toml"@) == Some("TOML"@),
        language_of("ts"@) == Some("TypeScript"@),
        language_of("tsx"@) == Some("TypeScript"@),
        language_of("txt"@) == Some("Plain text"@),
        language_of("xml"@) == Some("XML"@),
        language_of("yaml"@) == Some("YAML"@),
        language_of("yml"@) == Some("YAML"@),
        language_of("zsh"@) == Some("Shell"@),
{
    assert(language_of("bash"@) == Some("Shell"@)) by {
        reveal_strlit("bash");
    }
    assert(language_of("c"@) == Some("C"@)) by {
        reveal_strlit("c");
        reveal_strlit("bash");
        assert("bash"@.len() != "c"@.len());
    }
    assert(language_of("cc"@) == Some("C++"@)) by {
        reveal_strlit("cc");
        reveal_strlit("bash");
        reveal_strlit("c");
        assert("bash"@.len() != "cc"@.len()
            && "c"@.len() != "cc"@.len());
    }
    assert(language_of("cjs"@) == Some("JavaScript"@)) by {
        reveal_strlit("cjs");
        reveal_strlit("bash");
        reveal_strlit("c");
        reveal_strlit("cc");
        assert("bash"@.len() != "cjs"@.len()
            && "c"@.len() != "cjs"@.len()
            && "cc"@.len() != "cjs"@.len());
    }
    assert(language_of("cpp"@) == Some("C++"@)) by {
        reveal_strlit("cpp");
        reveal_strlit("bash");
        reveal_strlit("c");
        reveal_strlit("cc");
        reveal_strlit("cjs");
        assert("bash"@.len() != "cpp"@.len()
            && "c"@.len() != "cpp"@.len()
            && "cc"@.len() != "cpp"@.len()
            && "cjs"@[1] != "cpp"@[1]);
    }
    assert(language_of("csv"@) == Some("CSV"@)) by {
        reveal_strlit("csv");
        reveal_strlit("bash");
        reveal_strlit("c");
        reveal_strlit("cc");
        reveal_strlit("cjs");
        reveal_strlit("cpp");
        assert("bash"@.len() != "csv"@.len()
            && "c"@.len() != "csv"@.len()
            && "cc"@.len() != "csv"@.len()
            && "cjs"@[1] != "csv"@[1]
            && "cpp"@[1] != "csv"@[1]);
    }
    assert(language_of("css"@) == Some("CSS"@)) by {
        reveal_strlit("css");
        reveal_strlit("bash");
        reveal_strlit("c");
        reveal_strlit("cc");
        reveal_strlit("cjs");
        reveal_strlit("cpp");
        reveal_strlit("csv");
        assert("bash"@.len() != "css"@.len()
            && "c"@.len() != "css"@.len()
            && "cc"@.len() != "css"@.len()
            && "cjs"@[1] != "css"@[1]
            && "cpp"@[1] != "css"@[1]
            && "csv"@[2] != "css"@[2]);
    }
    assert(language_of("go"@) == Some("Go"@)) by {
        reveal_strlit("go");
        reveal_strlit("bash");
        reveal_strlit("c");
        reveal_strlit("cc");
        reveal_strlit("cjs");
        reveal_strlit("cpp");
        reveal_strlit("csv");
        reveal_strlit("css");
        assert("bash"@.len() != "go"@.len()
            && "c"@.len() != "go"@.len()
            && "cc"@[0] != "go"@[0]
            && "cjs"@.len() != "go"@.len()
            && "cpp"@.len() != "go"@.len()
            && "csv"@.len() != "go"@.len()
            && "css"@.len() != "go"@.len());
    }
    assert(language_of("h"@) == Some("C"@)) by {
        reveal_strlit("h");
        reveal_strlit("bash");
        reveal_strlit("c");
        reveal_strlit("cc");
        reveal_strlit("cjs");
        reveal_strlit("cpp");
        reveal_strlit("csv");
        reveal_strlit("css");
        reveal_strlit("go");
        assert("bash"@.len() != "h"@.len()
            && "c"@[0] != "h"@[0]
            && "cc"@.len() != "h"@.len()
            && "cjs"@.len() != "h"@.len()
            && "cpp"@.len() != "h"@.len()
            && "csv"@.len() != "h"@.len()
            && "css"@.len() != "h"@.len()
            && "go"@.len() != "h"@.len());
    }
    assert(language_of("hpp"@) == Some("C++"@)) by {
        reveal_strlit("hpp");
        reveal_strlit("bash");
        reveal_strlit("c");
        reveal_strlit("cc");
        reveal_strlit("cjs");
        reveal_strlit("cpp");
        reveal_strlit("csv");
        reveal_strlit("css");
        reveal_strlit("go");
        reveal_strlit("h");
        assert("bash"@.len() != "hpp"@.len()
            && "c"@.len() != "hpp"@.len()
            && "cc"@.len() != "hpp"@.len()
            && "cjs"@[0] != "hpp"@[0]
            && "cpp"@[0] != "hpp"@[0]
            && "csv"@[0] != "hpp"@[0]
            && "css"@[0] != "hpp"@[0]
            && "go"@.len() != "hpp"@.len()
            && "h"@.len() != "hpp"@.len());
    }
    assert(language_of("html"@) == Some("HTML"@)) by {
        reveal_strlit("html");
        reveal_strlit("bash");
        reveal_strlit("c");
        reveal_strlit("cc");
        reveal_strlit("cjs");
        reveal_strlit("cpp");
        reveal_strlit("csv");
        reveal_strlit("css");
        reveal_strlit("go");
        reveal_strlit("h");
        reveal_strlit("hpp");
        assert("bash"@[0] != "html"@[0]
            && "c"@.len() != "html"@.len()
            && "cc"@.len() != "html"@.len()
            && "cjs"@.len() != "html"@.len()
            && "cpp"@.len() != "html"@.len()
            && "csv"@.len() != "html"@.len()
            && "css"@.len() != "html"@.len()
            && "go"@.len() != "html"@.len()
            && "h"@.len() != "html"@.len()
            && "hpp"@.len() != "html"@.len());
    }
    assert(language_of("java"@) == Some("Java"@)) by {
        reveal_strlit("java");
        reveal_strlit("bash");
        reveal_strlit("c");
        reveal_strlit("cc");
        reveal_strlit("cjs");
        reveal_strlit("cpp");
        reveal_strlit("csv");
        reveal_strlit("css");
        reveal_strlit("go");
        reveal_strlit("h");
        reveal_strlit("hpp");
        reveal_strlit("html");
        assert("bash"@[0] != "java"@[0]
            && "c"@.len() != "java"@.len()
            && "cc"@.len() != "java"@.len()
            && "cjs"@.len() != "java"@.len()
            && "cpp"@.len() != "java"@.len()
            && "csv"@.len() != "java"@.len()
            && "css"@.len() != "java"@.len()
            && "go"@.len() != "java"@.len()
            && "h"@.len() != "java"@.len()
            && "hpp"@.len() != "java"@.len()
            && "html"@[0] != "java"@[0]);
    }
    assert(language_of("js"@) == Some("JavaScript"@)) by {
        reveal_strlit("js");
        reveal_strlit("bash");
        reveal_strlit("c");
        reveal_strlit("cc");
        reveal_strlit("cjs");
        reveal_strlit("cpp");
        reveal_strlit("csv");
        reveal_strlit("css");
        reveal_strlit("go");
        reveal_strlit("h");
        reveal_strlit("hpp");
        reveal_strlit("html");
        reveal_strlit("java");
        assert("bash"@.len() != "js"@.len()
            && "c"@.len() != "js"@.len()
            && "cc"@[0] != "js"@[0]
            && "cjs"@.len() != "js"@.len()
            && "cpp"@.len() != "js"@.len()
            && "csv"@.len() != "js"@.len()
            && "css"@.len() != "js"@.len()
            && "go"@[0] != "js"@[0]
            && "h"@.len() != "js"@.len()
            && "hpp"@.len() != "js"@.len()
            && "html"@.len() != "js"@.len()
            && "java"@.len() != "js"@.len());
    }
    assert(language_of("json"@) == Some("JSON"@)) by {
        reveal_strlit("json");
        reveal_strlit("bash");
        reveal_strlit("c");
        reveal_strlit("cc");
        reveal_strlit("cjs");
        reveal_strlit("cpp");
        reveal_strlit("csv");
        reveal_strlit("css");
        reveal_strlit("go");
        reveal_strlit("h");
        reveal_strlit("hpp");
        reveal_strlit("html");
        reveal_strlit("java");
        reveal_strlit("js");
        assert("bash"@[0] != "json"@[0]
            && "c"@.len() != "json"@.len()
            && "cc"@.len() != "json"@.len()
            && "cjs"@.len() != "json"@.len()
            && "cpp"@.len() != "json"@.len()
            && "csv"@.len() != "json"@.len()
            && "css"@.len() != "json"@.len()
            && "go"@.len() != "json"@.len()
            && "h"@.len() != "json"@.len()
            && "hpp"@.len() != "json"@.len()
            && "html"@[0] != "json"@[0]
            && "java"@[1] != "json"@[1]
            && "js"@.len() != "json"@.len());
    }
    assert(language_of("jsx"@) == Some("JavaScript"@)) by {
        reveal_strlit("jsx");
        reveal_strlit("bash");
        reveal_strlit("c");
        reveal_strlit("cc");
        reveal_strlit("cjs");
        reveal_strlit("cpp");
        reveal_strlit("csv");
        reveal_strlit("css");
        reveal_strlit("go");
        reveal_strlit("h");
        reveal_strlit("hpp");
        reveal_strlit("html");
        reveal_strlit("java");
        reveal_strlit("js");
        reveal_strlit("json");
        assert("bash"@.len() != "jsx"@.len()
            && "c"@.len() != "jsx"@.len()
            && "cc"@.len() != "jsx"@.len()
            && "cjs"@[0] != "jsx"@[0]
            && "cpp"@[0] != "jsx"@[0]
            && "csv"@[0] != "jsx"@[0]
            && "css"@[0] != "jsx"@[0]
            && "go"@.len() != "jsx"@.len()
            && "h"@.len() != "jsx"@.len()
            && "hpp"@[0] != "jsx"@[0]
            && "html"@.len() != "jsx"@.len()
            && "java"@.len() != "jsx"@.len()
            && "js"@.len() != "jsx"@.len()
            && "json"@.len() != "jsx"@.len());
    }
    assert(language_of("kt"@) == Some("Kotlin"@)) by {
        reveal_strlit("kt");
        reveal_strlit("bash");
        reveal_strlit("c");
        reveal_strlit("cc");
        reveal_strlit("cjs");
        reveal_strlit("cpp");
        reveal_strlit("csv");
        reveal_strlit("css");
        reveal_strlit("go");
        reveal_strlit("h");
        reveal_strlit("hpp");
        reveal_strlit("html");
        reveal_strlit("java");
        reveal_strlit("js");
        reveal_strlit("json");
        reveal_strlit("jsx");
        assert("bash"@.len() != "kt"@.len()
            && "c"@.len() != "kt"@.len()
            && "cc"@[0] != "kt"@[0]
            && "cjs"@.len() != "kt"@.len()
            && "cpp"@.len() != "kt"@.len()
            && "csv"@.len() != "kt"@.len()
            && "css"@.len() != "kt"@.len()
            && "go"@[0] != "kt"@[0]
            && "h"@.len() != "kt"@.len()
            && "hpp"@.len() != "kt"@.len()
            && "html"@.len() != "kt"@.len()
            && "java"@.len() != "kt"@.len()
            && "js"@[0] != "kt"@[0]
            && "json"@.len() != "kt"@.len()
            && "jsx"@.len() != "kt"@.len());
    }
    assert(language_of("lock"@) == Some("Lockfile"@)) by {
        reveal_strlit("lock");
        reveal_strlit("bash");
        reveal_strlit("c");
        reveal_strlit("cc");
        reveal_strlit("cjs");
        reveal_strlit("cpp");
        reveal_strlit("csv");
        reveal_strlit("css");
        reveal_strlit("go");
        reveal_strlit("h");
        reveal_strlit("hpp");
        reveal_strlit("html");
        reveal_strlit("java");
        reveal_strlit("js");
        reveal_strlit("json");
        reveal_strlit("jsx");
        reveal_strlit("kt");
        assert("bash"@[0] != "lock"@[0]
            && "c"@.len() != "lock"@.len()
            && "cc"@.len() != "lock"@.len()
            && "cjs"@.len() != "lock"@.len()
            && "cpp"@.len() != "lock"@.len()
            && "csv"@.len() != "lock"@.len()
            && "css"@.len() != "lock"@.len()
            && "go"@.len() != "lock"@.len()
            && "h"@.len() != "lock"@.len()
            && "hpp"@.len() != "lock"@.len()
            && "html"@[0] != "lock"@[0]
            && "java"@[0] != "lock"@[0]
            && "js"@.len() != "lock"@.len()
            && "json"@[0] != "lock"@[0]
            && "jsx"@.len() != "lock"@.len()
            && "kt"@.len() != "lock"@.len());
    }
    assert(language_of("md"@) == Some("Markdown"@)) by {
        reveal_strlit("md");
        reveal_strlit("bash");
        reveal_strlit("c");
        reveal_strlit("cc");
        reveal_strlit("cjs");
        reveal_strlit("cpp");
        reveal_strlit("csv");
        reveal_strlit("css");
        reveal_strlit("go");
        reveal_strlit("h");
        reveal_strlit("hpp");
        reveal_strlit("html");
        reveal_strlit("java");
        reveal_strlit("js");
        reveal_strlit("json");
        reveal_strlit("jsx");
        reveal_strlit("kt");
        reveal_strlit("lock");
        assert("bash"@.len() != "md"@.len()
            && "c"@.len() != "md"@.len()
            && "cc"@[0] != "md"@[0]
            && "cjs"@.len() != "md"@.len()
            && "cpp"@.len() != "md"@.len()
            && "csv"@.len() != "md"@.len()
            && "css"@.len() != "md"@.len()
            && "go"@[0] != "md"@[0]
            && "h"@.len() != "md"@.len()
            && "hpp"@.len() != "md"@.len()
            && "html"@.len() != "md"@.len()
            && "java"@.len() != "md"@.len()
            && "js"@[0] != "md"@[0]
            && "json"@.len() != "md"@.len()
            && "jsx"@.len() != "md"@.len()
            && "kt"@[0] != "md"@[0]
            && "lock"@.len() != "md"@.len());
    }
    assert(language_of("mjs"@) == Some("JavaScript"@)) by {
        reveal_strlit("mjs");
        reveal_strlit("bash");
        reveal_strlit("c");
        reveal_strlit("cc");
        reveal_strlit("cjs");
        reveal_strlit("cpp");
        reveal_strlit("csv");
        reveal_strlit("css");
        reveal_strlit("go");
        reveal_strlit("h");
        reveal_strlit("hpp");
        reveal_strlit("html");
        reveal_strlit("java");
        reveal_strlit("js");
        reveal_strlit("json");
        reveal_strlit("jsx");
        reveal_strlit("kt");
        reveal_strlit("lock");
        reveal_strlit("md");
        assert("bash"@.len() != "mjs"@.len()
            && "c"@.len() != "mjs"@.len()
            && "cc"@.len() != "mjs"@.len()
            && "cjs"@[0] != "mjs"@[0]
            && "cpp"@[0] != "mjs"@[0]
            && "csv"@[0] != "mjs"@[0]
            && "css"@[0] != "mjs"@[0]
            && "go"@.len() != "mjs"@.len()
            && "h"@.len() != "mjs"@.len()
            && "hpp"@[0] != "mjs"@[0]
            && "html"@.len() != "mjs"@.len()
            && "java"@.len() != "mjs"@.len()
            && "js"@.len() != "mjs"@.len()
            && "json"@.len() != "mjs"@.len()
            && "jsx"@[0] != "mjs"@[0]
            && "kt"@.len() != "mjs"@.len()
            && "lock"@.len() != "mjs"@.len()
            && "md"@.len() != "mjs"@.len());
    }
    assert(language_of("py"@) == Some("Python"@)) by {
        reveal_strlit("py");
        reveal_strlit("bash");
        reveal_strlit("c");
        reveal_strlit("cc");
        reveal_strlit("cjs");
        reveal_strlit("cpp");
        reveal_strlit("csv");
        reveal_strlit("css");
        reveal_strlit("go");
        reveal_strlit("h");
        reveal_strlit("hpp");
        reveal_strlit("html");
        reveal_strlit("java");
        reveal_strlit("js");
        reveal_strlit("json");
        reveal_strlit("jsx");
        reveal_strlit("kt");
        reveal_strlit("lock");
        reveal_strlit("md");
        reveal_strlit("mjs");
        assert("bash"@.len() != "py"@.len()
            && "c"@.len() != "py"@.len()
            && "cc"@[0] != "py"@[0]
            && "cjs"@.len() != "py"@.len()
            && "cpp"@.len() != "py"@.len()
            && "csv"@.len() != "py"@.len()
            && "css"@.len() != "py"@.len()
            && "go"@[0] != "py"@[0]
            && "h"@.len() != "py"@.len()
            && "hpp"@.len() != "py"@.len()
            && "html"@.len() != "py"@.len()
            && "java"@.len() != "py"@.len()
            && "js"@[0] != "py"@[0]
            && "json"@.len() != "py"@.len()
            && "jsx"@.len() != "py"@.len()
            && "kt"@[0] != "py"@[0]
            && "lock"@.len() != "py"@.len()
            && "md"@[0] != "py"@[0]
            && "mjs"@.len() != "py"@.len());
    }
    assert(language_of("rb"@) == Some("Ruby"@)) by {
        reveal_strlit("rb");
        reveal_strlit("bash");
        reveal_strlit("c");
        reveal_strlit("cc");
        reveal_strlit("cjs");
        reveal_strlit("cpp");
        reveal_strlit("csv");
        reveal_strlit("css");
        reveal_strlit("go");
        reveal_strlit("h");
        reveal_strlit("hpp");
        reveal_strlit("html");
        reveal_strlit("java");
        reveal_strlit("js");
        reveal_strlit("json");
        reveal_strlit("jsx");
        reveal_strlit("kt");
        reveal_strlit("lock");
        reveal_strlit("md");
        reveal_strlit("mjs");
        reveal_strlit("py");
        assert("bash"@.len() != "rb"@.len()
            && "c"@.len() != "rb"@.len()
            && "cc"@[0] != "rb"@[0]
            && "cjs"@.len() != "rb"@.len()
            && "cpp"@.len() != "rb"@.len()
            && "csv"@.len() != "rb"@.len()
            && "css"@.len() != "rb"@.len()
            && "go"@[0] != "rb"@[0]
            && "h"@.len() != "rb"@.len()
            && "hpp"@.len() != "rb"@.len()
            && "html"@.len() != "rb"@.len()
            && "java"@.len() != "rb"@.len()
            && "js"@[0] != "rb"@[0]
            && "json"@.len() != "rb"@.len()
            && "jsx"@.len() != "rb"@.len()
            && "kt"@[0] != "rb"@[0]
            && "lock"@.len() != "rb"@.len()
            && "md"@[0] != "rb"@[0]
            && "mjs"@.len() != "rb"@.len()
            && "py"@[0] != "rb"@[0]);
    }
    assert(language_of("rs"@) == Some("Rust"@)) by {
        reveal_strlit("rs");
        reveal_strlit("bash");
        reveal_strlit("c");
        reveal_strlit("cc");
        reveal_strlit("cjs");
        reveal_strlit("cpp");
        reveal_strlit("csv");
        reveal_strlit("css");
        reveal_strlit("go");
        reveal_strlit("h");
        reveal_strlit("hpp");
        reveal_strlit("html");
        reveal_strlit("java");
        reveal_strlit("js");
        reveal_strlit("json");
        reveal_strlit("jsx");
        reveal_strlit("kt");
        reveal_strlit("lock");
        reveal_strlit("md");
        reveal_strlit("mjs");
        reveal_strlit("py");
        reveal_strlit("rb");
        assert("bash"@.len() != "rs"@.len()
            && "c"@.len() != "rs"@.len()
            && "cc"@[0] != "rs"@[0]
            && "cjs"@.len() != "rs"@.len()
            && "cpp"@.len() != "rs"@.len()
            && "csv"@.len() != "rs"@.len()
            && "css"@.len() != "rs"@.len()
            && "go"@[0] != "rs"@[0]
            && "h"@.len() != "rs"@.len()
            && "hpp"@.len() != "rs"@.len()
            && "html"@.len() != "rs"@.len()
            && "java"@.len() != "rs"@.len()
            && "js"@[0] != "rs"@[0]
            && "json"@.len() != "rs"@.len()
            && "jsx"@.len() != "rs"@.len()
            && "kt"@[0] != "rs"@[0]
            && "lock"@.len() != "rs"@.len()
            && "md"@[0] != "rs"@[0]
            && "mjs"@.len() != "rs"@.len()
            && "py"@[0] != "rs"@[0]
            && "rb"@[1] != "rs"@[1]);
    }
    assert(language_of("sh"@) == Some("Shell"@)) by {
        reveal_strlit("sh");
        reveal_strlit("bash");
        reveal_strlit("c");
        reveal_strlit("cc");
        reveal_strlit("cjs");
        reveal_strlit("cpp");
        reveal_strlit("csv");
        reveal_strlit("css");
        reveal_strlit("go");
        reveal_strlit("h");
        reveal_strlit("hpp");
        reveal_strlit("html");
        reveal_strlit("java");
        reveal_strlit("js");
        reveal_strlit("json");
        reveal_strlit("jsx");
        reveal_strlit("kt");
        reveal_strlit("lock");
        reveal_strlit("md");
        reveal_strlit("mjs");
        reveal_strlit("py");
        reveal_strlit("rb");
        reveal_strlit("rs");
        assert("bash"@.len() != "sh"@.len()
            && "c"@.len() != "sh"@.len()
            && "cc"@[0] != "sh"@[0]
            && "cjs"@.len() != "sh"@.len()
            && "cpp"@.len() != "sh"@.len()
            && "csv"@.len() != "sh"@.len()
            && "css"@.len() != "sh"@.len()
            && "go"@[0] != "sh"@[0]
            && "h"@.len() != "sh"@.len()
            && "hpp"@.len() != "sh"@.len()
            && "html"@.len() != "sh"@.len()
            && "java"@.len() != "sh"@.len()
            && "js"@[0] != "sh"@[0]
            && "json"@.len() != "sh"@.len()
            && "jsx"@.len() != "sh"@.len()
            && "kt"@[0] != "sh"@[0]
            && "lock"@.len() != "sh"@.len()
            && "md"@[0] != "sh"@[0]
            && "mjs"@.len() != "sh"@.len()
            && "py"@[0] != "sh"@[0]
            && "rb"@[0] != "sh"@[0]
            && "rs"@[0] != "sh"@[0]);
    }
    assert(language_of("sql"@) == Some("SQL"@)) by {
        reveal_strlit("sql");
        reveal_strlit("bash");
        reveal_strlit("c");
        reveal_strlit("cc");
        reveal_strlit("cjs");
        reveal_strlit("cpp");
        reveal_strlit("csv");
        reveal_strlit("css");
        reveal_strlit("go");
        reveal_strlit("h");
        reveal_strlit("hpp");
        reveal_strlit("html");
        reveal_strlit("java");
        reveal_strlit("js");
        reveal_strlit("json");
        reveal_strlit("jsx");
        reveal_strlit("kt");
        reveal_strlit("lock");
        reveal_strlit("md");
        reveal_strlit("mjs");
        reveal_strlit("py");
        reveal_strlit("rb");
        reveal_strlit("rs");
        reveal_strlit("sh");
        assert("bash"@.len() != "sql"@.len()
            && "c"@.len() != "sql"@.len()
            && "cc"@.len() != "sql"@.len()
            && "cjs"@[0] != "sql"@[0]
            && "cpp"@[0] != "sql"@[0]
            && "csv"@[0] != "sql"@[0]
            && "css"@[0] != "sql"@[0]
            && "go"@.len() != "sql"@.len()
            && "h"@.len() != "sql"@.len()
            && "hpp"@[0] != "sql"@[0]
            && "html"@.len() != "sql"@.len()
            && "java"@.len() != "sql"@.len()
            && "js"@.len() != "sql"@.len()
            && "json"@.len() != "sql"@.len()
            && "jsx"@[0] != "sql"@[0]
            && "kt"@.len() != "sql"@.len()
            && "lock"@.len() != "sql"@.len()
            && "md"@.len() != "sql"@.len()
            && "mjs"@[0] != "sql"@[0]
            && "py"@.len() != "sql"@.len()
            && "rb"@.len() != "sql"@.len()
            && "rs"@.len() != "sql"@.len()
            && "sh"@.len() != "sql"@.len());
    }
    assert(language_of("toml"@) == Some("TOML"@)) by {
        reveal_strlit("toml");
        reveal_strlit("bash");
        reveal_strlit("c");
        reveal_strlit("cc");
        reveal_strlit("cjs");
        reveal_strlit("cpp");
        reveal_strlit("csv");
        reveal_strlit("css");
        reveal_strlit("go");
        reveal_strlit("h");
        reveal_strlit("hpp");
        reveal_strlit("html");
        reveal_strlit("java");
        reveal_strlit("js");
        reveal_strlit("json");
        reveal_strlit("jsx");
        reveal_strlit("kt");
        reveal_strlit("lock");
        reveal_strlit("md");
        reveal_strlit("mjs");
        reveal_strlit("py");
        reveal_strlit("rb");
        reveal_strlit("rs");
        reveal_strlit("sh");
        reveal_strlit("sql");
        assert("bash"@[0] != "toml"@[0]
            && "c"@.len() != "toml"@.len()
            && "cc"@.len() != "toml"@.len()
            && "cjs"@.len() != "toml"@.len()
            && "cpp"@.len() != "toml"@.len()
            && "csv"@.len() != "toml"@.len()
            && "css"@.len() != "toml"@.len()
            && "go"@.len() != "toml"@.len()
            && "h"@.len() != "toml"@.len()
            && "hpp"@.len() != "toml"@.len()
            && "html"@[0] != "toml"@[0]
            && "java"@[0] != "toml"@[0]
            && "js"@.len() != "toml"@.len()
            && "json"@[0] != "toml"@[0]
            && "jsx"@.len() != "toml"@.len()
            && "kt"@.len() != "toml"@.len()
            && "lock"@[0] != "toml"@[0]
            && "md"@.len() != "toml"@.len()
            && "mjs"@.len() != "toml"@.len()
            && "py"@.len() != "toml"@.len()
            && "rb"@.len() != "toml"@.len()
            && "rs"@.len() != "toml"@.len()
            && "sh"@.len() != "toml"@.len()
            && "sql"@.len() != "toml"@.len());
    }
    assert(language_of("ts"@) == Some("TypeScript"@)) by {
        reveal_strlit("ts");
        reveal_strlit("bash");
        reveal_strlit("c");
        reveal_strlit("cc");
        reveal_strlit("cjs");
        reveal_strlit("cpp");
        reveal_strlit("csv");
        reveal_strlit("css");
        reveal_strlit("go");
        reveal_strlit("h");
        reveal_strlit("hpp");
        reveal_strlit("html");
        reveal_strlit("java");
        reveal_strlit("js");
        reveal_strlit("json");
        reveal_strlit("jsx");
        reveal_strlit("kt");
        reveal_strlit("lock");
        reveal_strlit("md");
        reveal_strlit("mjs");
        reveal_strlit("py");
        reveal_strlit("rb");
        reveal_strlit("rs");
        reveal_strlit("sh");
        reveal_strlit("sql");
        reveal_strlit("toml");
        assert("bash"@.len() != "ts"@.len()
            && "c"@.len() != "ts"@.len()
            && "cc"@[0] != "ts"@[0]
            && "cjs"@.len() != "ts"@.len()
            && "cpp"@.len() != "ts"@.len()
            && "csv"@.len() != "ts"@.len()
            && "css"@.len() != "ts"@.len()
            && "go"@[0] != "ts"@[0]
            && "h"@.len() != "ts"@.len()
            && "hpp"@.len() != "ts"@.len()
            && "html"@.len() != "ts"@.len()
            && "java"@.len() != "ts"@.len()
            && "js"@[0] != "ts"@[0]
            && "json"@.len() != "ts"@.len()
            && "jsx"@.len() != "ts"@.len()
            && "kt"@[0] != "ts"@[0]
            && "lock"@.len() != "ts"@.len()
            && "md"@[0] != "ts"@[0]
            && "mjs"@.len() != "ts"@.len()
            && "py"@[0] != "ts"@[0]
            && "rb"@[0] != "ts"@[0]
            && "rs"@[0] != "ts"@[0]
            && "sh"@[0] != "ts"@[0]
            && "sql"@.len() != "ts"@.len()
            && "toml"@.len() != "ts"@.len());
    }
    assert(language_of("tsx"@) == Some("TypeScript"@)) by {
        reveal_strlit("tsx");
        reveal_strlit("bash");
        reveal_strlit("c");
        reveal_strlit("cc");
        reveal_strlit("cjs");
        reveal_strlit("cpp");
        reveal_strlit("csv");
        reveal_strlit("css");
        reveal_strlit("go");
        reveal_strlit("h");
        reveal_strlit("hpp");
        reveal_strlit("html");
        reveal_strlit("java");
        reveal_strlit("js");
        reveal_strlit("json");
        reveal_strlit("jsx");
        reveal_strlit("kt");
        reveal_strlit("lock");
        reveal_strlit("md");
        reveal_strlit("mjs");
        reveal_strlit("py");
        reveal_strlit("rb");
        reveal_strlit("rs");
        reveal_strlit("sh");
        reveal_strlit("sql");
        reveal_strlit("toml");
        reveal_strlit("ts");
        assert("bash"@.len() != "tsx"@.len()
            && "c"@.len() != "tsx"@.len()
            && "cc"@.len() != "tsx"@.len()
            && "cjs"@[0] != "tsx"@[0]
            && "cpp"@[0] != "tsx"@[0]
            && "csv"@[0] != "tsx"@[0]
            && "css"@[0] != "tsx"@[0]
            && "go"@.len() != "tsx"@.len()
            && "h"@.len() != "tsx"@.len()
            && "hpp"@[0] != "tsx"@[0]
            && "html"@.len() != "tsx"@.len()
            && "java"@.len() != "tsx"@.len()
            && "js"@.len() != "tsx"@.len()
            && "json"@.len() != "tsx"@.len()
            && "jsx"@[0] != "tsx"@[0]
            && "kt"@.len() != "tsx"@.len()
            && "lock"@.len() != "tsx"@.len()
            && "md"@.len() != "tsx"@.len()
            && "mjs"@[0] != "tsx"@[0]
            && "py"@.len() != "tsx"@.len()
            && "rb"@.len() != "tsx"@.len()
            && "rs"@.len() != "tsx"@.len()
            && "sh"@.len() != "tsx"@.len()
            && "sql"@[0] != "tsx"@[0]
            && "toml"@.len() != "tsx"@.len()
            && "ts"@.len() != "tsx"@.len());
    }
    assert(language_of("txt"@) == Some("Plain text"@)) by {
        reveal_strlit("txt");
        reveal_strlit("bash");
        reveal_strlit("c");
        reveal_strlit("cc");
        reveal_strlit("cjs");
        reveal_strlit("cpp");
        reveal_strlit("csv");
        reveal_strlit("css");
        reveal_strlit("go");
        reveal_strlit("h");
        reveal_strlit("hpp");
        reveal_strlit("html");
        reveal_strlit("java");
        reveal_strlit("js");
        reveal_strlit("json");
        reveal_strlit("jsx");
        reveal_strlit("kt");
        reveal_strlit("lock");
        reveal_strlit("md");
        reveal_strlit("mjs");
        reveal_strlit("py");
        reveal_strlit("rb");
        reveal_strlit("rs");
        reveal_strlit("sh");
        reveal_strlit("sql");
        reveal_strlit("toml");
        reveal_strlit("ts");
        reveal_strlit("tsx");
        assert("bash"@.len() != "txt"@.len()
            && "c"@.len() != "txt"@.len()
            && "cc"@.len() != "txt"@.len()
            && "cjs"@[0] != "txt"@[0]
            && "cpp"@[0] != "txt"@[0]
            && "csv"@[0] != "txt"@[0]
            && "css"@[0] != "txt"@[0]
            && "go"@.len() != "txt"@.len()
            && "h"@.len() != "txt"@.len()
            && "hpp"@[0] != "txt"@[0]
            && "html"@.len() != "txt"@.len()
            && "java"@.len() != "txt"@.len()
            && "js"@.len() != "txt"@.len()
            && "json"@.len() != "txt"@.len()
            && "jsx"@[0] != "txt"@[0]
            && "kt"@.len() != "txt"@.len()
            && "lock"@.len() != "txt"@.len()
            && "md"@.len() != "txt"@.len()
            && "mjs"@[0] != "txt"@[0]
            && "py"@.len() != "txt"@.len()
            && "rb"@.len() != "txt"@.len()
            && "rs"@.len() != "txt"@.len()
            && "sh"@.len() != "txt"@.len()
            && "sql"@[0] != "txt"@[0]
            && "toml"@.len() != "txt"@.len()
            && "ts"@.len() != "txt"@.len()
            && "tsx"@[1] != "txt"@[1]);
    }
    assert(language_of("xml"@) == Some("XML"@)) by {
        reveal_strlit("xml");
        reveal_strlit("bash");
        reveal_strlit("c");
        reveal_strlit("cc");
        reveal_strlit("cjs");
        reveal_strlit("cpp");
        reveal_strlit("csv");
        reveal_strlit("css");
        reveal_strlit("go");
        reveal_strlit("h");
        reveal_strlit("hpp");
        reveal_strlit("html");
        reveal_strlit("java");
        reveal_strlit("js");
        reveal_strlit("json");
        reveal_strlit("jsx");
        reveal_strlit("kt");
        reveal_strlit("lock");
        reveal_strlit("md");
        reveal_strlit("mjs");
        reveal_strlit("py");
        reveal_strlit("rb");
        reveal_strlit("rs");
        reveal_strlit("sh");
        reveal_strlit("sql");
        reveal_strlit("toml");
        reveal_strlit("ts");
        reveal_strlit("tsx");
        reveal_strlit("txt");
        assert("bash"@.len() != "xml"@.len()
            && "c"@.len() != "xml"@.len()
            && "cc"@.len() != "xml"@.len()
            && "cjs"@[0] != "xml"@[0]
            && "cpp"@[0] != "xml"@[0]
            && "csv"@[0] != "xml"@[0]
            && "css"@[0] != "xml"@[0]
            && "go"@.len() != "xml"@.len()
            && "h"@.len() != "xml"@.len()
            && "hpp"@[0] != "xml"@[0]
            && "html"@.len() != "xml"@.len()
            && "java"@.len() != "xml"@.len()
            && "js"@.len() != "xml"@.len()
            && "json"@.len() != "xml"@.len()
            && "jsx"@[0] != "xml"@[0]
            && "kt"@.len() != "xml"@.len()
            && "lock"@.len() != "xml"@.len()
            && "md"@.len() != "xml"@.len()
            && "mjs"@[0] != "xml"@[0]
            && "py"@.len() != "xml"@.len()
            && "rb"@.len() != "xml"@.len()
            && "rs"@.len() != "xml"@.len()
            && "sh"@.len() != "xml"@.len()
            && "sql"@[0] != "xml"@[0]
            && "toml"@.len() != "xml"@.len()
            && "ts"@.len() != "xml"@.len()
            && "tsx"@[0] != "xml"@[0]
            && "txt"@[0] != "xml"@[0]);
    }
    assert(language_of("yaml"@) == Some("YAML"@)) by {
        reveal_strlit("yaml");
        reveal_strlit("bash");
        reveal_strlit("c");
        reveal_strlit("cc");
        reveal_strlit("cjs");
        reveal_strlit("cpp");
        reveal_strlit("csv");
        reveal_strlit("css");
        reveal_strlit("go");
        reveal_strlit("h");
        reveal_strlit("hpp");
        reveal_strlit("html");
        reveal_strlit("java");
        reveal_strlit("js");
        reveal_strlit("json");
        reveal_strlit("jsx");
        reveal_strlit("kt");
        reveal_strlit("lock");
        reveal_strlit("md");
        reveal_strlit("mjs");
        reveal_strlit("py");
        reveal_strlit("rb");
        reveal_strlit("rs");
        reveal_strlit("sh");
        reveal_strlit("sql");
        reveal_strlit("toml");
        reveal_strlit("ts");
        reveal_strlit("tsx");
        reveal_strlit("txt");
        reveal_strlit("xml");
        assert("bash"@[0] != "yaml"@[0]
            && "c"@.len() != "yaml"@.len()
            && "cc"@.len() != "yaml"@.len()
            && "cjs"@.len() != "yaml"@.len()
            && "cpp"@.len() != "yaml"@.len()
            && "csv"@.len() != "yaml"@.len()
            && "css"@.len() != "yaml"@.len()
            && "go"@.len() != "yaml"@.len()
            && "h"@.len() != "yaml"@.len()
            && "hpp"@.len() != "yaml"@.len()
            && "html"@[0] != "yaml"@[0]
            && "java"@[0] != "yaml"@[0]
            && "js"@.len() != "yaml"@.len()
            && "json"@[0] != "yaml"@[0]
            && "jsx"@.len() != "yaml"@.len()
            && "kt"@.len() != "yaml"@.len()
            && "lock"@[0] != "yaml"@[0]
            && "md"@.len() != "yaml"@.len()
            && "mjs"@.len() != "yaml"@.len()
            && "py"@.len() != "yaml"@.len()
            && "rb"@.len() != "yaml"@.len()
            && "rs"@.len() != "yaml"@.len()
            && "sh"@.len() != "yaml"@.len()
            && "sql"@.len() != "yaml"@.len()
            && "toml"@[0] != "yaml"@[0]
            && "ts"@.len() != "yaml"@.len()
            && "tsx"@.len() != "yaml"@.len()
            && "txt"@.len() != "yaml"@.len()
            && "xml"@.len() != "yaml"@.len());
    }
    assert(language_of("yml"@) == Some("YAML"@)) by {
        reveal_strlit("yml");
        reveal_strlit("bash");
        reveal_strlit("c");
        reveal_strlit("cc");
        reveal_strlit("cjs");
        reveal_strlit("cpp");
        reveal_strlit("csv");
        reveal_strlit("css");
        reveal_strlit("go");
        reveal_strlit("h");
        reveal_strlit("hpp");
        reveal_strlit("html");
        reveal_strlit("java");
        reveal_strlit("js");
        reveal_strlit("json");
        reveal_strlit("jsx");
        reveal_strlit("kt");
        reveal_strlit("lock");
        reveal_strlit("md");
        reveal_strlit("mjs");
        reveal_strlit("py");
        reveal_strlit("rb");
        reveal_strlit("rs");
        reveal_strlit("sh");
        reveal_strlit("sql");
        reveal_strlit("toml");
        reveal_strlit("ts");
        reveal_strlit("tsx");
        reveal_strlit("txt");
        reveal_strlit("xml");
        reveal_strlit("yaml");
        assert("bash"@.len() != "yml"@.len()
            && "c"@.len() != "yml"@.len()
            && "cc"@.len() != "yml"@.len()
            && "cjs"@[0] != "yml"@[0]
            && "cpp"@[0] != "yml"@[0]
            && "csv"@[0] != "yml"@[0]
            && "css"@[0] != "yml"@[0]
            && "go"@.len() != "yml"@.len()
            && "h"@.len() != "yml"@.len()
            && "hpp"@[0] != "yml"@[0]
            && "html"@.len() != "yml"@.len()
            && "java"@.len() != "yml"@.len()
            && "js"@.len() != "yml"@.len()
            && "json"@.len() != "yml"@.len()
            && "jsx"@[0] != "yml"@[0]
            && "kt"@.len() != "yml"@.len()
            && "lock"@.len() != "yml"@.len()
            && "md"@.len() != "yml"@.len()
            && "mjs"@[0] != "yml"@[0]
            && "py"@.len() != "yml"@.len()
            && "rb"@.len() != "yml"@.len()
            && "rs"@.len() != "yml"@.len()
            && "sh"@.len() != "yml"@.len()
            && "sql"@[0] != "yml"@[0]
            && "toml"@.len() != "yml"@.len()
            && "ts"@.len() != "yml"@.len()
            && "tsx"@[0] != "yml"@[0]
            && "txt"@[0] != "yml"@[0]
            && "xml"@[0] != "yml"@[0]
            && "yaml"@.len() != "yml"@.len());
    }
    assert(language_of("zsh"@) == Some("Shell"@)) by {
        reveal_strlit("zsh");
        reveal_strlit("bash");
        reveal_strlit("c");
        reveal_strlit("cc");
        reveal_strlit("cjs");
        reveal_strlit("cpp");
        reveal_strlit("csv");
        reveal_strlit("css");
        reveal_strlit("go");
        reveal_strlit("h");
        reveal_strlit("hpp");
        reveal_strlit("html");
        reveal_strlit("java");
        reveal_strlit("js");
        reveal_strlit("json");
        reveal_strlit("jsx");
        reveal_strlit("kt");
        reveal_strlit("lock");
        reveal_strlit("md");
        reveal_strlit("mjs");
        reveal_strlit("py");
        reveal_strlit("rb");
        reveal_strlit("rs");
        reveal_strlit("sh");
        reveal_strlit("sql");
        reveal_strlit("toml");
        reveal_strlit("ts");
        reveal_strlit("tsx");
        reveal_strlit("txt");
        reveal_strlit("xml");
        reveal_strlit("yaml");
        reveal_strlit("yml");
        assert("bash"@.len() != "zsh"@.len()
            && "c"@.len() != "zsh"@.len()
            && "cc"@.len() != "zsh"@.len()
            && "cjs"@[0] != "zsh"@[0]
            && "cpp"@[0] != "zsh"@[0]
            && "csv"@[0] != "zsh"@[0]
            && "css"@[0] != "zsh"@[0]
            && "go"@.len() != "zsh"@.len()
            && "h"@.len() != "zsh"@.len()
            && "hpp"@[0] != "zsh"@[0]
            && "html"@.len() != "zsh"@.len()
            && "java"@.len() != "zsh"@.len()
            && "js"@.len() != "zsh"@.len()
            && "json"@.len() != "zsh"@.len()
            && "jsx"@[0] != "zsh"@[0]
            && "kt"@.len() != "zsh"@.len()
            && "lock"@.len() != "zsh"@.len()
            && "md"@.len() != "zsh"@.len()
            && "mjs"@[0] != "zsh"@[0]
            && "py"@.len() != "zsh"@.len()
            && "rb"@.len() != "zsh"@.len()
            && "rs"@.len() != "zsh"@.len()
            && "sh"@.len() != "zsh"@.len()
            && "sql"@[0] != "zsh"@[0]
            && "toml"@.len() != "zsh"@.len()
            && "ts"@.len() != "zsh"@.len()
            && "tsx"@[0] != "zsh"@[0]
            && "txt"@[0] != "zsh"@[0]
            && "xml"@[0] != "zsh"@[0]
            && "yaml"@.len() != "zsh"@.len()
            && "yml"@[0] != "zsh"@[0]);
    }
}

} // verus!
